//! Privacy-first activity telemetry: the in-memory event ring, the textual
//! summary of a cycle's events, and the decisions of the capture loops.
//!
//! Timestamps are milliseconds on a monotonic clock chosen by the caller.

use vstd::prelude::*;
use std::collections::VecDeque;
use crate::analysis::{analysis_category, structured_description, try_parse_analysis};
use crate::text::{chars_of, join, join_exec, push_str, slice_chars, views};
use crate::unicode::string_from_chars;

verus! {

/// How long raw events may live in the ring buffer before being purged.
pub const RING_BUFFER_TTL_MS: u64 = 120_000;

/// Length of one aggregation cycle.
pub const CYCLE_MS: u64 = 60_000;

/// Duration recorded for the periodic screenshot + vision report.
pub const VISION_REPORT_DURATION_SECS: u64 = 60;

/// Duration recorded for an action-log review: a narrative signal, the
/// vision snapshot owns the time.
pub const ACTION_REVIEW_DURATION_SECS: u64 = 0;

/// Duration recorded for an action-triggered capture: a point in time.
pub const ACTION_REPORT_DURATION_SECS: u64 = 0;

/// At most this many events are described in one cycle's summary.
pub const MAX_EVENTS_IN_SUMMARY: usize = 40;

/// Minimum time between two action-triggered captures.
pub const CAPTURE_COOLDOWN_MS: u64 = 15_000;

/// A raw interaction signal, kept only in process memory.
#[derive(Debug, Clone)]
pub enum ActionEvent {
    ForegroundChanged { app_name: String, window_title: String, at: u64 },
    UiaFocusChanged { control_name: Option<String>, control_type: Option<String>, at: u64 },
    UiaWindowOpened { name: Option<String>, at: u64 },
    UiaWindowClosed { name: Option<String>, at: u64 },
}

/// When `e` happened.
pub open spec fn event_time(e: ActionEvent) -> u64 {
    match e {
        ActionEvent::ForegroundChanged { at, .. } => at,
        ActionEvent::UiaFocusChanged { at, .. } => at,
        ActionEvent::UiaWindowOpened { at, .. } => at,
        ActionEvent::UiaWindowClosed { at, .. } => at,
    }
}

impl ActionEvent {
    /// When the event happened.
    pub fn timestamp(&self) -> (t: u64)
        ensures
            t == event_time(*self),
    {
        match self {
            ActionEvent::ForegroundChanged { at, .. } => *at,
            ActionEvent::UiaFocusChanged { at, .. } => *at,
            ActionEvent::UiaWindowOpened { at, .. } => *at,
            ActionEvent::UiaWindowClosed { at, .. } => *at,
        }
    }
}

/// Whether an event taken at `at` has outlived the ring's time to live at `now`.
pub open spec fn expired(at: u64, now: u64) -> bool {
    at + RING_BUFFER_TTL_MS < now
}

/// `s` without its leading run of expired events.
pub open spec fn drop_expired(s: Seq<ActionEvent>, now: u64) -> Seq<ActionEvent>
    decreases s.len(),
{
    if s.len() > 0 && expired(event_time(s[0]), now) {
        drop_expired(s.drop_first(), now)
    } else {
        s
    }
}

/// Whether the oldest buffered event has expired at `now`.
fn front_expired(ring: &VecDeque<ActionEvent>, now: u64) -> (b: bool)
    ensures
        b == (ring@.len() > 0 && expired(event_time(ring@[0]), now)),
{
    if ring.len() == 0 {
        return false;
    }
    let t = ring[0].timestamp();
    t < now && now - t > RING_BUFFER_TTL_MS
}

/// Appends `event` to the ring, then purges events at the front that are
/// older than the time to live.
pub fn push_event(ring: &mut VecDeque<ActionEvent>, event: ActionEvent, now: u64)
    ensures
        final(ring)@ == drop_expired(old(ring)@.push(event), now),
{
    ring.push_back(event);
    while front_expired(ring, now)
        invariant
            drop_expired(old(ring)@.push(event), now) == drop_expired(ring@, now),
        decreases ring.len(),
    {
        let ghost before = ring@;
        let _ = ring.pop_front();
        assert(ring@ =~= before.drop_first());
    }
}

/// What the user is working on, as told by the front end.
#[derive(Debug, Clone)]
pub struct TaskContext {
    pub user_task: Option<String>,
    pub jira_ticket: Option<String>,
}

impl Default for TaskContext {
    fn default() -> (r: Self)
        ensures
            r.user_task is None,
            r.jira_ticket is None,
    {
        TaskContext { user_task: None, jira_ticket: None }
    }
}

/// The view of an optional string.
pub open spec fn opt_view(o: Option<String>) -> Option<Seq<char>> {
    match o {
        Some(s) => Some(s@),
        None => None,
    }
}

/// The label a report is filed under: the Jira ticket, else the user's
/// task, else "General".
pub open spec fn task_label_of(ctx: TaskContext) -> Seq<char> {
    match ctx.jira_ticket {
        Some(t) => t@,
        None => match ctx.user_task {
            Some(u) => u@,
            None => "General"@,
        },
    }
}

/// The label a report is filed under.
pub fn task_label(ctx: &TaskContext) -> (r: String)
    ensures
        r@ == task_label_of(*ctx),
{
    match &ctx.jira_ticket {
        Some(t) => t.clone(),
        None => match &ctx.user_task {
            Some(u) => u.clone(),
            None => "General".to_owned(),
        },
    }
}

/// The shared telemetry state: whether monitoring is on, the raw event
/// ring, and the current task.
pub struct TelemetryState {
    pub running: bool,
    pub ring: VecDeque<ActionEvent>,
    pub task_ctx: TaskContext,
}

impl TelemetryState {
    /// Monitoring off, no events, no task.
    pub fn new() -> (r: Self)
        ensures
            !r.running,
            r.ring@.len() == 0,
            r.task_ctx.user_task is None,
            r.task_ctx.jira_ticket is None,
    {
        TelemetryState { running: false, ring: VecDeque::new(), task_ctx: TaskContext::default() }
    }
}

/// Turns monitoring on or off; turning it off drops every buffered event.
pub fn set_running(state: &mut TelemetryState, value: bool)
    ensures
        final(state).running == value,
        final(state).ring@ == if value {
            old(state).ring@
        } else {
            Seq::<ActionEvent>::empty()
        },
        final(state).task_ctx == old(state).task_ctx,
{
    state.running = value;
    if !value {
        state.ring.clear();
    }
}

/// Replaces the task the reports are filed under.
pub fn set_task_context(
    state: &mut TelemetryState,
    user_task: Option<String>,
    jira_ticket: Option<String>,
)
    ensures
        final(state).task_ctx.user_task == user_task,
        final(state).task_ctx.jira_ticket == jira_ticket,
        final(state).running == old(state).running,
        final(state).ring@ == old(state).ring@,
{
    state.task_ctx.user_task = user_task;
    state.task_ctx.jira_ticket = jira_ticket;
}

/// What one aggregation cycle works on.
pub struct CycleInput {
    pub events: Vec<ActionEvent>,
    pub task_label: String,
    pub jira_ticket: Option<String>,
}

/// Starts an aggregation cycle: when monitoring is off the ring is emptied
/// and nothing is done; otherwise every buffered event is taken out of the
/// ring together with the task the cycle's reports are filed under.
pub fn begin_cycle(state: &mut TelemetryState) -> (r: Option<CycleInput>)
    ensures
        final(state).ring@.len() == 0,
        final(state).running == old(state).running,
        final(state).task_ctx == old(state).task_ctx,
        match r {
            None => !old(state).running,
            Some(c) => {
                &&& old(state).running
                &&& c.events@ == old(state).ring@
                &&& c.task_label@ == task_label_of(old(state).task_ctx)
                &&& opt_view(c.jira_ticket) == opt_view(old(state).task_ctx.jira_ticket)
            },
        },
{
    if !state.running {
        state.ring.clear();
        return None;
    }
    let mut events: Vec<ActionEvent> = Vec::new();
    while state.ring.len() > 0
        invariant
            events@ + state.ring@ == old(state).ring@,
            state.running == old(state).running,
            state.task_ctx == old(state).task_ctx,
        decreases state.ring.len(),
    {
        let ghost before = state.ring@;
        let ghost ev0 = events@;
        match state.ring.pop_front() {
            Some(e) => {
                events.push(e);
                assert(events@ + state.ring@ =~= ev0 + before);
            },
            None => {},
        }
    }
    assert(events@ + state.ring@ =~= events@);
    let label = task_label(&state.task_ctx);
    let jira = match &state.task_ctx.jira_ticket {
        Some(t) => Some(t.clone()),
        None => None,
    };
    Some(CycleInput { events, task_label: label, jira_ticket: jira })
}

/// Where an aggregation cycle that has begun stands.
#[derive(Debug, Clone, Copy, PartialEq, Eq, Structural)]
pub enum CyclePhase {
    /// The cycle's events were just taken out of the ring.
    Start,
    /// The events are being reviewed as text.
    Reviewing,
    /// A screenshot is being taken and analysed.
    Snapshotting,
    /// Nothing more is done in this cycle.
    Finished,
}

/// The phase that follows `phase`: the text review runs only when the cycle
/// took events; the snapshot runs after it (or at once when there was nothing
/// to review) only while monitoring is still on; then the cycle ends.
pub open spec fn cycle_successor(phase: CyclePhase, has_events: bool, running: bool) -> CyclePhase {
    match phase {
        CyclePhase::Start => if has_events {
            CyclePhase::Reviewing
        } else if running {
            CyclePhase::Snapshotting
        } else {
            CyclePhase::Finished
        },
        CyclePhase::Reviewing => if running {
            CyclePhase::Snapshotting
        } else {
            CyclePhase::Finished
        },
        _ => CyclePhase::Finished,
    }
}

/// Advances an aggregation cycle; `running` is the monitoring flag read at
/// the moment of the step.
pub fn next_cycle_phase(phase: CyclePhase, has_events: bool, running: bool) -> (n: CyclePhase)
    ensures
        n == cycle_successor(phase, has_events, running),
{
    match phase {
        CyclePhase::Start => if has_events {
            CyclePhase::Reviewing
        } else if running {
            CyclePhase::Snapshotting
        } else {
            CyclePhase::Finished
        },
        CyclePhase::Reviewing => if running {
            CyclePhase::Snapshotting
        } else {
            CyclePhase::Finished
        },
        _ => CyclePhase::Finished,
    }
}

/// A cycle ends after at most three steps, reviews only when it took events,
/// and never reviews or snapshots twice.
pub proof fn lemma_cycle_ends(has_events: bool, r1: bool, r2: bool, r3: bool)
    ensures
        ({
            let p1 = cycle_successor(CyclePhase::Start, has_events, r1);
            let p2 = cycle_successor(p1, has_events, r2);
            let p3 = cycle_successor(p2, has_events, r3);
            &&& p3 == CyclePhase::Finished
            &&& (p1 == CyclePhase::Reviewing <==> has_events)
            &&& p2 != CyclePhase::Reviewing
            &&& p3 != CyclePhase::Snapshotting
            &&& !(p1 == CyclePhase::Snapshotting && p2 == CyclePhase::Snapshotting)
        }),
{
}

// ---------------------------------------------------------------------------
// Summary of a cycle's events
// ---------------------------------------------------------------------------

/// `s` cut to `max` characters, an ellipsis marking a cut.
pub open spec fn truncated(s: Seq<char>, max: nat) -> Seq<char> {
    if s.len() <= max {
        s
    } else {
        s.take(max as int) + seq!['\u{2026}']
    }
}

/// Shortens `s` to `max_len` characters followed by an ellipsis when it is longer.
pub fn truncate(s: &str, max_len: usize) -> (r: String)
    ensures
        r@ == truncated(s@, max_len as nat),
{
    let cs = chars_of(s);
    if cs.len() <= max_len {
        string_from_chars(&cs)
    } else {
        let mut head = slice_chars(&cs, 0, max_len);
        head.push('\u{2026}');
        assert(head@ =~= s@.take(max_len as int) + seq!['\u{2026}']);
        string_from_chars(&head)
    }
}

/// " '<name>'" for a named window, nothing otherwise.
pub open spec fn name_suffix(name: Option<String>) -> Seq<char> {
    match name {
        Some(n) => " '"@ + truncated(n@, 60) + "'"@,
        None => seq![],
    }
}

/// The summary line for one event.
pub open spec fn event_line(e: ActionEvent) -> Seq<char> {
    match e {
        ActionEvent::ForegroundChanged { app_name, window_title, .. } => "- switched focus to app '"@
            + app_name@ + "' (window: '"@ + truncated(window_title@, 80) + "')"@,
        ActionEvent::UiaFocusChanged { control_name, control_type, .. } => "- focused a "@ + (
        match control_type {
            Some(t) => t@,
            None => "UI"@,
        }) + " control"@ + (match control_name {
            Some(n) => " named '"@ + truncated(n@, 60) + "'"@,
            None => seq![],
        }),
        ActionEvent::UiaWindowOpened { name, .. } => "- opened a window"@ + name_suffix(name),
        ActionEvent::UiaWindowClosed { name, .. } => "- closed a window"@ + name_suffix(name),
    }
}

/// The summary of a cycle: one line per event, for the first
/// `MAX_EVENTS_IN_SUMMARY` events.
pub open spec fn events_summary(events: Seq<ActionEvent>) -> Seq<char> {
    let n = if events.len() < MAX_EVENTS_IN_SUMMARY {
        events.len()
    } else {
        MAX_EVENTS_IN_SUMMARY as nat
    };
    join(events.take(n as int).map_values(|e: ActionEvent| event_line(e)), "\n"@)
}

fn push_name_suffix(dst: &mut Vec<char>, name: &Option<String>)
    ensures
        final(dst)@ == old(dst)@ + name_suffix(*name),
{
    match name {
        Some(n) => {
            push_str(dst, " '");
            let t = truncate(n.as_str(), 60);
            push_str(dst, t.as_str());
            push_str(dst, "'");
            assert(final(dst)@ =~= old(dst)@ + name_suffix(*name));
        },
        None => {
            assert(old(dst)@ + Seq::<char>::empty() =~= old(dst)@);
        },
    }
}

/// The summary line for one event.
fn event_line_exec(e: &ActionEvent) -> (r: Vec<char>)
    ensures
        r@ == event_line(*e),
{
    let mut r: Vec<char> = Vec::new();
    match e {
        ActionEvent::ForegroundChanged { app_name, window_title, .. } => {
            push_str(&mut r, "- switched focus to app '");
            push_str(&mut r, app_name.as_str());
            push_str(&mut r, "' (window: '");
            let t = truncate(window_title.as_str(), 80);
            push_str(&mut r, t.as_str());
            push_str(&mut r, "')");
        },
        ActionEvent::UiaFocusChanged { control_name, control_type, .. } => {
            push_str(&mut r, "- focused a ");
            match control_type {
                Some(t) => push_str(&mut r, t.as_str()),
                None => push_str(&mut r, "UI"),
            }
            push_str(&mut r, " control");
            match control_name {
                Some(n) => {
                    push_str(&mut r, " named '");
                    let t = truncate(n.as_str(), 60);
                    push_str(&mut r, t.as_str());
                    push_str(&mut r, "'");
                },
                None => {},
            }
        },
        ActionEvent::UiaWindowOpened { name, .. } => {
            push_str(&mut r, "- opened a window");
            push_name_suffix(&mut r, name);
        },
        ActionEvent::UiaWindowClosed { name, .. } => {
            push_str(&mut r, "- closed a window");
            push_name_suffix(&mut r, name);
        },
    }
    assert(r@ =~= event_line(*e));
    r
}

/// Describes the first `MAX_EVENTS_IN_SUMMARY` events, one line each.
pub fn summarize_events(events: &Vec<ActionEvent>) -> (r: String)
    ensures
        r@ == events_summary(events@),
{
    let n: usize = if events.len() < MAX_EVENTS_IN_SUMMARY {
        events.len()
    } else {
        MAX_EVENTS_IN_SUMMARY
    };
    let ghost lines = events@.take(n as int).map_values(|e: ActionEvent| event_line(e));
    let mut out: Vec<Vec<char>> = Vec::new();
    let mut i: usize = 0;
    while i < n
        invariant
            i <= n <= events.len(),
            lines == events@.take(n as int).map_values(|e: ActionEvent| event_line(e)),
            views(out@) == lines.take(i as int),
        decreases n - i,
    {
        let line = event_line_exec(&events[i]);
        let ghost o0 = out@;
        out.push(line);
        assert(views(out@) =~= views(o0).push(line@));
        assert(lines.take(i + 1) =~= lines.take(i as int).push(lines[i as int]));
        i += 1;
    }
    assert(lines.take(n as int) =~= lines);
    let nl = chars_of("\n");
    let joined = join_exec(&out, &nl);
    string_from_chars(&joined)
}

/// The message a failed action-log review is recorded with.
pub open spec fn review_failure(e: Seq<char>) -> Seq<char> {
    "Automatic action-log review failed: "@ + e
}

/// Turns the local model's answer to an action-log review into the report's
/// description and category: the parsed answer, or a failure note filed as
/// "General"; `None` where parsing the answer would panic.
pub fn review_result(reply: Result<String, String>) -> (r: Option<(String, String)>)
    ensures
        match reply {
            Ok(raw) => match r {
                Some((d, c)) => structured_description(raw@) == Some(d@) && c@
                    == analysis_category(raw@),
                None => structured_description(raw@) is None,
            },
            Err(e) => match r {
                Some((d, c)) => d@ == review_failure(e@) && c@ == "General"@,
                None => false,
            },
        },
{
    match reply {
        Ok(raw) => try_parse_analysis(raw.as_str()),
        Err(e) => {
            let mut d: Vec<char> = Vec::new();
            push_str(&mut d, "Automatic action-log review failed: ");
            push_str(&mut d, e.as_str());
            Some((string_from_chars(&d), "General".to_owned()))
        },
    }
}


// ---------------------------------------------------------------------------
// Action-triggered captures
// ---------------------------------------------------------------------------

/// Whether a capture fired at `last` still blocks a new one at `now`
/// (time elapsed saturates at zero, as `Instant::duration_since` does).
pub open spec fn cooldown_blocks(last: Option<u64>, now: u64) -> bool {
    match last {
        Some(t) => (if now > t {
            now - t
        } else {
            0
        }) < CAPTURE_COOLDOWN_MS,
        None => false,
    }
}

/// Whether an action-triggered capture starts: monitoring is on and the
/// cooldown since the last one has passed.
pub open spec fn capture_fires(last: Option<u64>, running: bool, now: u64) -> bool {
    running && !cooldown_blocks(last, now)
}

/// Rate limit for action-triggered captures.
pub struct CaptureCooldown {
    pub last_fired: Option<u64>,
}

impl CaptureCooldown {
    /// No capture fired yet.
    pub fn new() -> (r: Self)
        ensures
            r.last_fired is None,
    {
        CaptureCooldown { last_fired: None }
    }

    /// Decides whether an action-triggered capture may start at `now`, and
    /// records it when it does.
    pub fn try_fire(&mut self, running: bool, now: u64) -> (fired: bool)
        ensures
            fired == capture_fires(old(self).last_fired, running, now),
            final(self).last_fired == if fired {
                Some(now)
            } else {
                old(self).last_fired
            },
    {
        if !running {
            return false;
        }
        if let Some(t) = self.last_fired {
            let elapsed = if now > t {
                now - t
            } else {
                0
            };
            if elapsed < CAPTURE_COOLDOWN_MS {
                return false;
            }
        }
        self.last_fired = Some(now);
        true
    }
}

/// Two captures are never closer than the cooldown: once one fires at `t1`,
/// no capture fires at any `t2` from `t1` up to `t1 + CAPTURE_COOLDOWN_MS`.
pub proof fn lemma_cooldown_spacing(last: Option<u64>, t1: u64, running: bool, t2: u64)
    requires
        capture_fires(last, true, t1),
        t1 <= t2,
        t2 < t1 + CAPTURE_COOLDOWN_MS,
    ensures
        !capture_fires(Some(t1), running, t2),
{
}

/// Whether two optional strings hold the same text.
pub fn opt_str_eq(a: &Option<String>, b: &Option<String>) -> (r: bool)
    ensures
        r == (opt_view(*a) == opt_view(*b)),
{
    match (a, b) {
        (Some(x), Some(y)) => *x == *y,
        (None, None) => true,
        _ => false,
    }
}

fn clone_opt(a: &Option<String>) -> (r: Option<String>)
    ensures
        r == *a,
{
    match a {
        Some(x) => Some(x.clone()),
        None => None,
    }
}

/// The view of a foreground key (application name, window title).
pub open spec fn key_view(k: Option<(String, String)>) -> Option<(Seq<char>, Seq<char>)> {
    match k {
        Some((a, t)) => Some((a@, t@)),
        None => None,
    }
}

/// Change detection for the frontmost window, polled while monitoring.
pub struct ForegroundTracker {
    pub last_key: Option<(String, String)>,
}

impl ForegroundTracker {
    /// Nothing seen yet.
    pub fn new() -> (r: Self)
        ensures
            r.last_key is None,
    {
        ForegroundTracker { last_key: None }
    }

    /// One poll: `window` is the frontmost (application, title) if it could
    /// be read. A window different from the last one seen is recorded and
    /// reported as a `ForegroundChanged` event; when monitoring is off the
    /// memory of the last window is dropped.
    pub fn observe(&mut self, running: bool, window: Option<(String, String)>, now: u64) -> (r:
        Option<ActionEvent>)
        ensures
            !running ==> final(self).last_key is None && r is None,
            running ==> match window {
                None => final(self).last_key == old(self).last_key && r is None,
                Some((a, t)) => if key_view(old(self).last_key) == Some((a@, t@)) {
                    final(self).last_key == old(self).last_key && r is None
                } else {
                    &&& key_view(final(self).last_key) == Some((a@, t@))
                    &&& r == Some(
                        ActionEvent::ForegroundChanged { app_name: a, window_title: t, at: now },
                    )
                },
            },
    {
        if !running {
            self.last_key = None;
            return None;
        }
        match window {
            None => None,
            Some((a, t)) => {
                let same = match &self.last_key {
                    Some((la, lt)) => *la == a && *lt == t,
                    None => false,
                };
                if same {
                    None
                } else {
                    self.last_key = Some((a.clone(), t.clone()));
                    Some(ActionEvent::ForegroundChanged { app_name: a, window_title: t, at: now })
                }
            },
        }
    }
}

/// What a change of the frontmost application produces.
pub struct AppSwitch {
    pub events: Vec<ActionEvent>,
    pub capture_context: Option<String>,
}

/// The sentence handed to the action-triggered capture when `app` comes to
/// the front.
pub open spec fn focus_context(app: Seq<char>) -> Seq<char> {
    "The user just focused the application '"@ + app + "'."@
}

/// The events for a switch from `last` to `now_app` at `now`.
pub open spec fn switch_events(last: Option<String>, now_app: Option<String>, now: u64) -> Seq<
    ActionEvent,
> {
    (match last {
        Some(p) => seq![ActionEvent::UiaWindowClosed { name: Some(p), at: now }],
        None => seq![],
    }) + (match now_app {
        Some(a) => seq![ActionEvent::UiaWindowOpened { name: Some(a), at: now }],
        None => seq![],
    })
}

/// The view of a focus key (control name, control role).
pub open spec fn focus_view(k: Option<(Option<String>, Option<String>)>) -> Option<
    (Option<Seq<char>>, Option<Seq<char>>),
> {
    match k {
        Some((n, r)) => Some((opt_view(n), opt_view(r))),
        None => None,
    }
}

/// Change detection for the frontmost application and its focused control.
pub struct AppFocusTracker {
    pub last_focus_key: Option<(Option<String>, Option<String>)>,
    pub last_app: Option<String>,
}

impl AppFocusTracker {
    /// Nothing seen yet.
    pub fn new() -> (r: Self)
        ensures
            r.last_focus_key is None,
            r.last_app is None,
    {
        AppFocusTracker { last_focus_key: None, last_app: None }
    }

    /// Forgets what was seen (monitoring is off).
    pub fn reset(&mut self)
        ensures
            final(self).last_focus_key is None,
            final(self).last_app is None,
    {
        self.last_focus_key = None;
        self.last_app = None;
    }

    /// The frontmost application is `app_now`: a change closes the previous
    /// application's window, opens the new one's, asks for a capture and
    /// forgets the focused control.
    pub fn on_app(&mut self, app_now: Option<String>, now: u64) -> (r: AppSwitch)
        ensures
            if opt_view(app_now) == opt_view(old(self).last_app) {
                &&& r.events@.len() == 0
                &&& r.capture_context is None
                &&& final(self).last_app == old(self).last_app
                &&& final(self).last_focus_key == old(self).last_focus_key
            } else {
                &&& r.events@ == switch_events(old(self).last_app, app_now, now)
                &&& match app_now {
                    Some(a) => r.capture_context matches Some(c) && c@ == focus_context(a@),
                    None => r.capture_context is None,
                }
                &&& final(self).last_app == app_now
                &&& final(self).last_focus_key is None
            },
    {
        if opt_str_eq(&app_now, &self.last_app) {
            return AppSwitch { events: Vec::new(), capture_context: None };
        }
        let mut events: Vec<ActionEvent> = Vec::new();
        let prev = clone_opt(&self.last_app);
        match prev {
            Some(p) => events.push(ActionEvent::UiaWindowClosed { name: Some(p), at: now }),
            None => {},
        }
        let mut context: Option<String> = None;
        match &app_now {
            Some(a) => {
                events.push(ActionEvent::UiaWindowOpened { name: Some(a.clone()), at: now });
                let mut c: Vec<char> = Vec::new();
                push_str(&mut c, "The user just focused the application '");
                push_str(&mut c, a.as_str());
                push_str(&mut c, "'.");
                context = Some(string_from_chars(&c));
            },
            None => {},
        }
        assert(events@ =~= switch_events(old(self).last_app, app_now, now));
        self.last_app = app_now;
        self.last_focus_key = None;
        AppSwitch { events, capture_context: context }
    }

    /// The focused control is (`name`, `role`): a change to a control with a
    /// name or a role is recorded and reported.
    pub fn on_focus(&mut self, name: Option<String>, role: Option<String>, now: u64) -> (r: Option<
        ActionEvent,
    >)
        ensures
            final(self).last_app == old(self).last_app,
            if focus_view(old(self).last_focus_key) != Some((opt_view(name), opt_view(role))) && (
            name is Some || role is Some) {
                &&& focus_view(final(self).last_focus_key) == Some((opt_view(name), opt_view(role)))
                &&& r == Some(
                    ActionEvent::UiaFocusChanged { control_name: name, control_type: role, at: now },
                )
            } else {
                &&& final(self).last_focus_key == old(self).last_focus_key
                &&& r is None
            },
    {
        let same = match &self.last_focus_key {
            Some((ln, lr)) => opt_str_eq(ln, &name) && opt_str_eq(lr, &role),
            None => false,
        };
        if !same && (name.is_some() || role.is_some()) {
            self.last_focus_key = Some((clone_opt(&name), clone_opt(&role)));
            Some(ActionEvent::UiaFocusChanged { control_name: name, control_type: role, at: now })
        } else {
            None
        }
    }
}


// ---------------------------------------------------------------------------
// Laws
// ---------------------------------------------------------------------------

/// Whether the events of `s` are in time order.
pub open spec fn time_ordered(s: Seq<ActionEvent>) -> bool {
    forall|i: int, j: int|
        0 <= i <= j < s.len() ==> event_time(#[trigger] s[i]) <= event_time(#[trigger] s[j])
}

/// The purge after a push keeps a suffix of the ring; when the ring is in
/// time order (events are pushed as they happen) no event older than the
/// time to live survives it.
pub proof fn lemma_ring_holds_live_events(s: Seq<ActionEvent>, now: u64)
    ensures
        drop_expired(s, now).len() <= s.len(),
        drop_expired(s, now) == s.skip(s.len() - drop_expired(s, now).len()),
        time_ordered(s) ==> forall|i: int|
            0 <= i < drop_expired(s, now).len() ==> !expired(
                event_time(#[trigger] drop_expired(s, now)[i]),
                now,
            ),
    decreases s.len(),
{
    if s.len() > 0 && expired(event_time(s[0]), now) {
        let t = s.drop_first();
        lemma_ring_holds_live_events(t, now);
        let d = drop_expired(t, now);
        assert(t.skip(t.len() - d.len()) =~= s.skip(s.len() - d.len()));
        if time_ordered(s) {
            assert(time_ordered(t)) by {
                assert forall|i: int, j: int| 0 <= i <= j < t.len() implies event_time(
                    #[trigger] t[i],
                ) <= event_time(#[trigger] t[j]) by {
                    assert(t[i] == s[i + 1]);
                    assert(t[j] == s[j + 1]);
                }
            }
        }
    } else {
        assert(s.skip(0) =~= s);
        if time_ordered(s) && s.len() > 0 {
            assert forall|i: int| 0 <= i < s.len() implies !expired(
                event_time(#[trigger] s[i]),
                now,
            ) by {
                assert(event_time(s[0]) <= event_time(s[i]));
            }
        }
    }
}

/// Pushing an event no older than the newest one keeps the ring in time order.
pub proof fn lemma_push_keeps_time_order(s: Seq<ActionEvent>, e: ActionEvent, now: u64)
    requires
        time_ordered(s),
        s.len() > 0 ==> event_time(s.last()) <= event_time(e),
    ensures
        time_ordered(s.push(e)),
        time_ordered(drop_expired(s.push(e), now)),
{
    let p = s.push(e);
    assert forall|i: int, j: int| 0 <= i <= j < p.len() implies event_time(#[trigger] p[i])
        <= event_time(#[trigger] p[j]) by {
        if j == s.len() && i < j {
            assert(event_time(s[i]) <= event_time(s.last()));
        }
    }
    lemma_ring_holds_live_events(p, now);
    let d = drop_expired(p, now);
    let k = p.len() - d.len();
    assert forall|i: int, j: int| 0 <= i <= j < d.len() implies event_time(#[trigger] d[i])
        <= event_time(#[trigger] d[j]) by {
        assert(d[i] == p[i + k]);
        assert(d[j] == p[j + k]);
    }
}

/// A text cut by `truncate` is the text itself when short enough, and
/// otherwise its first `max` characters and an ellipsis.
pub proof fn lemma_truncated_bounds(s: Seq<char>, max: nat)
    ensures
        truncated(s, max).len() <= max + 1,
        s.len() <= max ==> truncated(s, max) == s,
        s.len() > max ==> truncated(s, max).take(max as int) == s.take(max as int),
{
    if s.len() > max {
        assert((s.take(max as int) + seq!['\u{2026}']).take(max as int) =~= s.take(max as int));
    }
}


// ---------------------------------------------------------------------------
// Window events of the platform hooks
// ---------------------------------------------------------------------------

/// The WinEvent id of a foreground switch (`EVENT_SYSTEM_FOREGROUND`).
pub const EVENT_SYSTEM_FOREGROUND: u32 = 3;

/// Whether a WinEvent callback reports a genuine top-level foreground switch:
/// the foreground event, for a real window, about the window itself
/// (`OBJID_WINDOW` and `CHILDID_SELF` are both 0).
pub fn is_foreground_switch(event: u32, hwnd_is_null: bool, id_object: i32, id_child: i32) -> (b:
    bool)
    ensures
        b == (event == EVENT_SYSTEM_FOREGROUND && !hwnd_is_null && id_object == 0 && id_child == 0),
{
    !(event != EVENT_SYSTEM_FOREGROUND || hwnd_is_null || id_object != 0 || id_child != 0)
}

/// The sentence handed to the action-triggered capture when a window opens
/// or closes inside an application.
pub open spec fn window_context(opened: bool, name: Option<Seq<char>>, app: Option<Seq<char>>) -> Seq<
    char,
> {
    "The user just "@ + (if opened {
        "opened"@
    } else {
        "closed"@
    }) + " a window"@ + (match name {
        Some(n) => " named '"@ + n + "'"@,
        None => seq![],
    }) + " in the application '"@ + (match app {
        Some(a) => a,
        None => "an application"@,
    }) + "'."@
}

/// Describes a window opening or closing for the action-triggered capture.
pub fn window_action_context(opened: bool, name: &Option<String>, app: &Option<String>) -> (r:
    String)
    ensures
        r@ == window_context(opened, opt_view(*name), opt_view(*app)),
{
    let mut c: Vec<char> = Vec::new();
    push_str(&mut c, "The user just ");
    if opened {
        push_str(&mut c, "opened");
    } else {
        push_str(&mut c, "closed");
    }
    push_str(&mut c, " a window");
    match name {
        Some(n) => {
            push_str(&mut c, " named '");
            push_str(&mut c, n.as_str());
            push_str(&mut c, "'");
        },
        None => {},
    }
    push_str(&mut c, " in the application '");
    match app {
        Some(a) => push_str(&mut c, a.as_str()),
        None => push_str(&mut c, "an application"),
    }
    push_str(&mut c, "'.");
    assert(c@ =~= window_context(opened, opt_view(*name), opt_view(*app)));
    string_from_chars(&c)
}

/// The event for a window that opened (or closed) at `at`.
pub fn window_event(opened: bool, name: Option<String>, at: u64) -> (e: ActionEvent)
    ensures
        e == if opened {
            ActionEvent::UiaWindowOpened { name, at }
        } else {
            ActionEvent::UiaWindowClosed { name, at }
        },
{
    if opened {
        ActionEvent::UiaWindowOpened { name, at }
    } else {
        ActionEvent::UiaWindowClosed { name, at }
    }
}

} // verus!
