use vstd::prelude::*;

verus! {

/// Label of the main window.
pub const MAIN_WINDOW_LABEL: &'static str = "main";

/// After a move or resize the window may lose focus for this long without
/// being hidden.
pub const GEOMETRY_FOCUS_GUARD_MS: u64 = 120;

/// Moves and resizes this soon after showing are the system's own layout.
pub const SHOW_GEOMETRY_SUPPRESS_MS: u64 = 260;

/// First and second re-check after losing focus with the cursor nearby.
pub const HIDE_RECHECK_SHORT_MS: u64 = 120;

pub const HIDE_RECHECK_LONG_MS: u64 = 240;

/// Extra delay of the second re-check after a recent move or resize.
pub const HIDE_RECHECK_GEOMETRY_EXTRA_MS: u64 = 96;

/// Pause after focus is handed back to the previous window.
pub const FOCUS_RESTORE_SETTLE_MS: u64 = 20;

/// Shortest time auto-hide is suspended for.
pub const MIN_AUTO_HIDE_SUSPEND_MS: u64 = 200;

/// Timers and flags that steer showing and hiding the main window. Times
/// are milliseconds since the Unix epoch, read by the caller.
pub struct AppState {
    pub last_geometry_event_ms: u64,
    pub last_main_window_show_ms: u64,
    pub auto_hide_suspend_until_ms: u64,
    pub frontend_ready: bool,
    pub pending_show_near_cursor: bool,
    pub target_hwnd: isize,
}

/// What to do when the main window loses focus.
#[derive(Clone, Copy, Debug, PartialEq, Eq, Structural)]
pub enum FocusLostAction {
    /// Keep the window.
    Keep,
    /// Look again after each of the two delays and hide then if still
    /// unfocused with the cursor away.
    Recheck(u64, u64),
    /// Hide now.
    Hide,
}

/// `a - b`, stopping at zero.
pub open spec fn sat_sub(a: u64, b: u64) -> u64 {
    if a >= b {
        (a - b) as u64
    } else {
        0
    }
}

/// `v`, but at least `lo`.
pub open spec fn at_least_u64(v: u64, lo: u64) -> u64 {
    if v < lo {
        lo
    } else {
        v
    }
}

/// `a + b`, stopping at `u64::MAX`.
pub open spec fn sat_add(a: u64, b: u64) -> u64 {
    if a + b > u64::MAX {
        u64::MAX
    } else {
        (a + b) as u64
    }
}

fn saturating_sub(a: u64, b: u64) -> (r: u64)
    ensures
        r == sat_sub(a, b),
{
    if a >= b {
        a - b
    } else {
        0
    }
}

impl AppState {
    /// All timers at zero, nothing pending, no target window.
    pub fn new() -> (s: AppState)
        ensures
            s == (AppState {
                last_geometry_event_ms: 0,
                last_main_window_show_ms: 0,
                auto_hide_suspend_until_ms: 0,
                frontend_ready: false,
                pending_show_near_cursor: false,
                target_hwnd: 0,
            }),
    {
        AppState {
            last_geometry_event_ms: 0,
            last_main_window_show_ms: 0,
            auto_hide_suspend_until_ms: 0,
            frontend_ready: false,
            pending_show_near_cursor: false,
            target_hwnd: 0,
        }
    }

    /// Starts a run: the front end is not ready and nothing is pending.
    pub fn reset_run_state(&mut self)
        ensures
            *final(self) == (AppState { frontend_ready: false, pending_show_near_cursor: false, ..*old(self) }),
    {
        self.frontend_ready = false;
        self.pending_show_near_cursor = false;
    }

    /// Notes that the main window was shown at `now`.
    pub fn mark_main_window_shown(&mut self, now: u64)
        ensures
            *final(self) == (AppState { last_main_window_show_ms: now, ..*old(self) }),
    {
        self.last_main_window_show_ms = now;
    }

    /// When the main window was last shown.
    pub fn last_main_window_show_ms(&self) -> (r: u64)
        ensures
            r == self.last_main_window_show_ms,
    {
        self.last_main_window_show_ms
    }

    /// Notes a user move or resize at `now`.
    pub fn mark_geometry_event(&mut self, now: u64)
        ensures
            *final(self) == (AppState { last_geometry_event_ms: now, ..*old(self) }),
    {
        self.last_geometry_event_ms = now;
    }

    /// When the window was last moved or resized by the user.
    pub fn last_geometry_event_ms(&self) -> (r: u64)
        ensures
            r == self.last_geometry_event_ms,
    {
        self.last_geometry_event_ms
    }

    /// Auto-hide is suspended at `now`.
    pub fn auto_hide_is_suspended(&self, now: u64) -> (r: bool)
        ensures
            r == (now < self.auto_hide_suspend_until_ms),
    {
        now < self.auto_hide_suspend_until_ms
    }

    /// Suspends auto-hide from `now` for `ms` milliseconds (at least 200),
    /// the end stopping at the clock's largest value.
    pub fn suspend_main_window_auto_hide(&mut self, ms: u64, now: u64)
        ensures
            *final(self) == (AppState {
                auto_hide_suspend_until_ms: sat_add(now, at_least_u64(ms, MIN_AUTO_HIDE_SUSPEND_MS)),
                ..*old(self)
            }),
    {
        let duration = if ms < MIN_AUTO_HIDE_SUSPEND_MS {
            MIN_AUTO_HIDE_SUSPEND_MS
        } else {
            ms
        };
        self.auto_hide_suspend_until_ms = if now > u64::MAX - duration {
            u64::MAX
        } else {
            now + duration
        };
    }

    /// The front end has finished loading.
    pub fn mark_frontend_ready(&mut self)
        ensures
            *final(self) == (AppState { frontend_ready: true, ..*old(self) }),
    {
        self.frontend_ready = true;
    }

    /// Whether the front end has finished loading.
    pub fn is_frontend_ready(&self) -> (r: bool)
        ensures
            r == self.frontend_ready,
    {
        self.frontend_ready
    }

    /// Remembers a request to show the window near the cursor once the front
    /// end is ready.
    pub fn queue_show_near_cursor_on_ready(&mut self)
        ensures
            *final(self) == queued(*old(self)),
    {
        self.pending_show_near_cursor = true;
    }

    /// Takes the pending show request: whether there was one, and none is
    /// left.
    pub fn take_pending_show_near_cursor(&mut self) -> (r: bool)
        ensures
            (r, *final(self)) == taken(*old(self)),
    {
        let r = self.pending_show_near_cursor;
        self.pending_show_near_cursor = false;
        r
    }

    /// A suspension asked for `ms` milliseconds at `now` covers every later
/// moment before `now + ms` (all but the clock's last value, where the
/// suspension's end stops).
pub proof fn suspension_covers_span(s: AppState, ms: u64, now: u64, t: u64)
    requires
        now <= t,
        t < now + ms,
        t < u64::MAX,
    ensures
        t < sat_add(now, at_least_u64(ms, MIN_AUTO_HIDE_SUSPEND_MS)),
{
}

/// Remembers the window that had focus before ours was shown.
    pub fn capture_target_window(&mut self, hwnd: isize)
        ensures
            *final(self) == (AppState { target_hwnd: hwnd, ..*old(self) }),
    {
        self.target_hwnd = hwnd;
    }

    /// Takes the remembered window handle, leaving none (0).
    pub fn take_target_window(&mut self) -> (r: isize)
        ensures
            r == old(self).target_hwnd,
            *final(self) == (AppState { target_hwnd: 0, ..*old(self) }),
    {
        let r = self.target_hwnd;
        self.target_hwnd = 0;
        r
    }

    /// A move or resize of a window at `now`: for the main window it counts
    /// as the user's unless it comes within 260 ms of showing, and the
    /// window is then to be kept inside its work area (the result).
    pub fn on_geometry_changed(&mut self, is_main: bool, now: u64) -> (clamp_to_work_area: bool)
        ensures
            clamp_to_work_area == is_main,
            *final(self) == if is_main && sat_sub(now, old(self).last_main_window_show_ms) >= SHOW_GEOMETRY_SUPPRESS_MS {
                AppState { last_geometry_event_ms: now, ..*old(self) }
            } else {
                *old(self)
            },
    {
        if !is_main {
            return false;
        }
        let elapsed = saturating_sub(now, self.last_main_window_show_ms);
        if elapsed >= SHOW_GEOMETRY_SUPPRESS_MS {
            self.mark_geometry_event(now);
        }
        true
    }

    /// What to do when a window loses focus at `now`; `cursor_near` says
    /// whether the cursor is within 8 px of it (`None` when unknown). Only
    /// the main window reacts, and not while auto-hide is suspended. With
    /// the cursor near (or unknown) it is checked again after 120 and 240
    /// ms; else, within 120 ms of a move or resize, after the rest of that
    /// time plus 16 ms and 96 ms later; else it is hidden.
    pub fn on_focus_lost(&self, is_main: bool, now: u64, cursor_near: Option<bool>) -> (a: FocusLostAction)
        ensures
            a == if !is_main || now < self.auto_hide_suspend_until_ms {
                FocusLostAction::Keep
            } else if cursor_near != Some(false) {
                FocusLostAction::Recheck(HIDE_RECHECK_SHORT_MS, HIDE_RECHECK_LONG_MS)
            } else if sat_sub(now, self.last_geometry_event_ms) < GEOMETRY_FOCUS_GUARD_MS {
                let delay = (GEOMETRY_FOCUS_GUARD_MS - sat_sub(now, self.last_geometry_event_ms) + 16) as u64;
                FocusLostAction::Recheck(delay, (delay + HIDE_RECHECK_GEOMETRY_EXTRA_MS) as u64)
            } else {
                FocusLostAction::Hide
            },
    {
        if !is_main || self.auto_hide_is_suspended(now) {
            return FocusLostAction::Keep;
        }
        match cursor_near {
            Some(false) => {},
            _ => {
                return FocusLostAction::Recheck(HIDE_RECHECK_SHORT_MS, HIDE_RECHECK_LONG_MS);
            },
        }
        let elapsed = saturating_sub(now, self.last_geometry_event_ms);
        if elapsed < GEOMETRY_FOCUS_GUARD_MS {
            let delay = GEOMETRY_FOCUS_GUARD_MS - elapsed + 16;
            return FocusLostAction::Recheck(delay, delay + HIDE_RECHECK_GEOMETRY_EXTRA_MS);
        }
        FocusLostAction::Hide
    }

    /// A delayed re-check at `now` hides the window when auto-hide is not
    /// suspended, the window is not focused (unknown counts as unfocused)
    /// and the cursor is known to be away.
    pub fn should_hide_on_recheck(&self, now: u64, focused: Option<bool>, cursor_near: Option<bool>) -> (hide: bool)
        ensures
            hide == (!(now < self.auto_hide_suspend_until_ms) && focused != Some(true) && cursor_near == Some(false)),
    {
        if self.auto_hide_is_suspended(now) {
            return false;
        }
        let unfocused = match focused {
            Some(f) => !f,
            None => true,
        };
        unfocused && match cursor_near {
            Some(near) => !near,
            None => false,
        }
    }
}

/// Starts a run on the shared state.
pub fn reset_run_state(state: &mut AppState)
    ensures
        *final(state) == (AppState { frontend_ready: false, pending_show_near_cursor: false, ..*old(state) }),
{
    state.reset_run_state()
}

/// Notes that the main window was shown at `now`.
pub fn mark_main_window_shown(state: &mut AppState, now: u64)
    ensures
        *final(state) == (AppState { last_main_window_show_ms: now, ..*old(state) }),
{
    state.mark_main_window_shown(now)
}

/// The front end has finished loading.
pub fn mark_frontend_ready(state: &mut AppState)
    ensures
        *final(state) == (AppState { frontend_ready: true, ..*old(state) }),
{
    state.mark_frontend_ready()
}

/// Whether the front end has finished loading.
pub fn is_frontend_ready(state: &AppState) -> (r: bool)
    ensures
        r == state.frontend_ready,
{
    state.is_frontend_ready()
}

/// Remembers a request to show the window near the cursor once ready.
pub fn queue_show_near_cursor_on_ready(state: &mut AppState)
    ensures
        *final(state) == queued(*old(state)),
{
    state.queue_show_near_cursor_on_ready()
}

/// Takes the pending show request.
pub fn take_pending_show_near_cursor(state: &mut AppState) -> (r: bool)
    ensures
        (r, *final(state)) == taken(*old(state)),
{
    state.take_pending_show_near_cursor()
}

/// Suspends auto-hide from `now` for `ms` milliseconds (at least 200).
pub fn suspend_main_window_auto_hide(state: &mut AppState, ms: u64, now: u64)
    ensures
        *final(state) == (AppState {
            auto_hide_suspend_until_ms: sat_add(now, at_least_u64(ms, MIN_AUTO_HIDE_SUSPEND_MS)),
            ..*old(state)
        }),
{
    state.suspend_main_window_auto_hide(ms, now)
}

/// Remembers the window that had focus before ours was shown.
pub fn capture_target_window(state: &mut AppState, hwnd: isize)
    ensures
        *final(state) == (AppState { target_hwnd: hwnd, ..*old(state) }),
{
    state.capture_target_window(hwnd)
}

/// Default time auto-hide is suspended for when the front end asks
/// without saying how long.
pub const DEFAULT_AUTO_HIDE_SUSPEND_MS: u64 = 4000;

/// The front end asks to suspend auto-hide for `ms` (4000 ms when not
/// given), from `now`.
pub fn suspend_auto_hide(state: &mut AppState, ms: Option<u64>, now: u64)
    ensures
        *final(state) == (AppState {
            auto_hide_suspend_until_ms: sat_add(now, at_least_u64(
                match ms {
                    Some(v) => v,
                    None => DEFAULT_AUTO_HIDE_SUSPEND_MS,
                },
                MIN_AUTO_HIDE_SUSPEND_MS,
            )),
            ..*old(state)
        }),
{
    let duration = match ms {
        Some(v) => v,
        None => DEFAULT_AUTO_HIDE_SUSPEND_MS,
    };
    state.suspend_main_window_auto_hide(duration, now);
}

/// The front end reports that it is ready; whether a show queued before
/// that is due now (it is taken off the queue).
pub fn set_frontend_ready(state: &mut AppState) -> (show_now: bool)
    ensures
        show_now == old(state).pending_show_near_cursor,
        *final(state) == (AppState { frontend_ready: true, pending_show_near_cursor: false, ..*old(state) }),
{
    state.mark_frontend_ready();
    state.take_pending_show_near_cursor()
}

/// What pressing the main shortcut does once the target window is noted.
#[derive(Clone, Copy, Debug, PartialEq, Eq, Structural)]
pub enum MainShortcutAction {
    /// The front end is not ready yet: the show waits for it.
    ShowWhenReady,
    /// Show the main window next to the cursor now.
    ShowNearCursor,
}

/// Handles the main shortcut: the window that had focus (`hwnd`) is noted;
/// the show is queued until the front end is ready, else done now.
pub fn handle_main_shortcut(state: &mut AppState, hwnd: isize) -> (a: MainShortcutAction)
    ensures
        old(state).frontend_ready ==> a == MainShortcutAction::ShowNearCursor
            && *final(state) == (AppState { target_hwnd: hwnd, ..*old(state) }),
        !old(state).frontend_ready ==> a == MainShortcutAction::ShowWhenReady
            && *final(state) == (AppState { target_hwnd: hwnd, pending_show_near_cursor: true, ..*old(state) }),
{
    state.capture_target_window(hwnd);
    if !state.is_frontend_ready() {
        state.queue_show_near_cursor_on_ready();
        return MainShortcutAction::ShowWhenReady;
    }
    MainShortcutAction::ShowNearCursor
}

/// The state after a show request is queued.
pub open spec fn queued(s: AppState) -> AppState {
    AppState { pending_show_near_cursor: true, ..s }
}

/// What taking the pending request answers, and the state it leaves.
pub open spec fn taken(s: AppState) -> (bool, AppState) {
    (s.pending_show_near_cursor, AppState { pending_show_near_cursor: false, ..s })
}

/// A queued show request is handed out exactly once: the first take after
/// queueing answers yes, a second take answers no.
pub proof fn queued_show_taken_once(s: AppState)
    ensures
        taken(queued(s)).0,
        !taken(taken(queued(s)).1).0,
{
}

/// Resetting the run state drops a queued request.
pub proof fn reset_drops_queued_show(s: AppState)
    ensures
        !taken(AppState { frontend_ready: false, pending_show_near_cursor: false, ..queued(s) }).0,
{
}

// ---------------------------------------------------------------------------
// Placement
// ---------------------------------------------------------------------------

/// The position that keeps a window of size `w` x `h` at `(x, y)` inside
/// the work area at `(ax, ay)` of size `aw` x `ah`: each coordinate clamped
/// between the area's origin and the far edge minus the window size (the
/// origin when the window is larger).
pub open spec fn clamped_position(x: int, y: int, w: int, h: int, ax: int, ay: int, aw: int, ah: int) -> (int, int) {
    let max_x = if ax + aw - w > ax { ax + aw - w } else { ax };
    let max_y = if ay + ah - h > ay { ay + ah - h } else { ay };
    (
        if x < ax { ax } else if x > max_x { max_x } else { x },
        if y < ay { ay } else if y > max_y { max_y } else { y },
    )
}

/// Where to move a window so that it stays inside its work area; `None`
/// when it already does.
pub fn clamp_to_work_area(x: i32, y: i32, width: u32, height: u32, area_x: i32, area_y: i32, area_width: u32, area_height: u32) -> (r: Option<(i32, i32)>)
    requires
        width <= i32::MAX,
        height <= i32::MAX,
        area_width <= i32::MAX,
        area_height <= i32::MAX,
        i32::MIN <= area_x + area_width <= i32::MAX,
        i32::MIN <= area_y + area_height <= i32::MAX,
        i32::MIN <= area_x + area_width - width <= i32::MAX,
        i32::MIN <= area_y + area_height - height <= i32::MAX,
    ensures
        ({
            let (cx, cy) = clamped_position(x as int, y as int, width as int, height as int, area_x as int, area_y as int, area_width as int, area_height as int);
            if cx == x && cy == y {
                r is None
            } else {
                r == Some((cx as i32, cy as i32))
            }
        }),
{
    let far_x = area_x + area_width as i32 - width as i32;
    let far_y = area_y + area_height as i32 - height as i32;
    let max_x = if far_x > area_x { far_x } else { area_x };
    let max_y = if far_y > area_y { far_y } else { area_y };
    let cx = if x < area_x { area_x } else if x > max_x { max_x } else { x };
    let cy = if y < area_y { area_y } else if y > max_y { max_y } else { y };
    if cx != x || cy != y {
        Some((cx, cy))
    } else {
        None
    }
}

/// Where the popup goes near the cursor `(cx, cy)` for a window of size
/// `w` x `h` in the work rectangle `left..right` x `top..bottom` with an
/// 8 px margin: 12 px right of and 16 px below the cursor, moved left when
/// it would cross the right margin, flipped above the cursor when it would
/// cross the bottom margin, and never past the left or top margin.
pub open spec fn near_cursor_position(cx: int, cy: int, w: int, h: int, left: int, top: int, right: int, bottom: int) -> (int, int) {
    let m: int = 8;
    let x0 = cx + 12;
    let y0 = cy + 16;
    let x1 = if x0 + w > right - m {
        if right - w - m > left + m { right - w - m } else { left + m }
    } else {
        x0
    };
    let y1 = if y0 + h > bottom - m {
        if cy - h - 12 > top + m { cy - h - 12 } else { top + m }
    } else {
        y0
    };
    (if x1 > left + m { x1 } else { left + m }, if y1 > top + m { y1 } else { top + m })
}

/// Bounds under which the placement arithmetic stays within `i32`.
pub open spec fn placement_in_range(cx: int, cy: int, w: int, h: int, left: int, top: int, right: int, bottom: int) -> bool {
    &&& i32::MIN <= cx + 12 + w <= i32::MAX
    &&& i32::MIN <= cy + 16 + h <= i32::MAX
    &&& i32::MIN <= cy - h - 12 <= i32::MAX
    &&& i32::MIN <= right - w - 8 <= i32::MAX
    &&& i32::MIN <= bottom - h - 8 <= i32::MAX
    &&& left + 8 <= i32::MAX
    &&& top + 8 <= i32::MAX
    &&& i32::MIN <= right - 8
    &&& i32::MIN <= bottom - 8
    &&& i32::MIN <= cy - h
    &&& cx + 12 <= i32::MAX
    &&& cy + 16 <= i32::MAX
    &&& 0 <= w
    &&& 0 <= h
}

/// Places the popup near the cursor inside the work area.
pub fn position_near_cursor(cx: i32, cy: i32, width: i32, height: i32, left: i32, top: i32, right: i32, bottom: i32) -> (r: (i32, i32))
    requires
        placement_in_range(cx as int, cy as int, width as int, height as int, left as int, top as int, right as int, bottom as int),
    ensures
        (r.0 as int, r.1 as int) == near_cursor_position(cx as int, cy as int, width as int, height as int, left as int, top as int, right as int, bottom as int),
{
    let margin: i32 = 8;
    let mut x = cx + 12;
    let mut y = cy + 16;
    if x + width > right - margin {
        let a = right - width - margin;
        let b = left + margin;
        x = if a > b { a } else { b };
    }
    if y + height > bottom - margin {
        let a = cy - height - 12;
        let b = top + margin;
        y = if a > b { a } else { b };
    }
    let lm = left + margin;
    let tm = top + margin;
    x = if x > lm { x } else { lm };
    y = if y > tm { y } else { tm };
    (x, y)
}

} // verus!
