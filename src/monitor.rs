//! The monitoring worker's decisions, as a state machine.
//!
//! The host runs the worker loop: it hands each [`Event`] to
//! [`Monitor::step`], performs the returned [`Action`]s in order, and hands
//! back the event that the last of them asks for. One iteration of the loop
//! is: a start event (with any command received), an optional page refresh,
//! a capture of the "last updated" region, a scrape only when that region
//! changed, and an idle wait in short slices during which cancellation is
//! checked.
use vstd::prelude::*;
use crate::rules::{resolve_action, resolved_action, BotAction, Rule};
use crate::trip::{
    listing_skipped, listing_trips, parse_trips, skipped_records, trips_view, ParseTripError,
    Trip, TripView,
};

verus! {

/// Messages between the host and the worker: commands (`Start`, `Stop`)
/// and status events.
#[derive(Debug, Clone)]
pub enum BotMessage {
    Start(Vec<Rule>),
    Stop,
    TripFound,
    CopyScreen,
    Waiting(u64),
    Copied(String),
    /// A trip line of the scraped text was skipped because this column did
    /// not read.
    Skipped(ParseTripError),
}

pub enum MessageView {
    Start(Seq<Rule>),
    Stop,
    TripFound,
    CopyScreen,
    Waiting(u64),
    Copied(Seq<char>),
    Skipped(ParseTripError),
}

impl View for BotMessage {
    type V = MessageView;

    open spec fn view(&self) -> MessageView {
        match self {
            BotMessage::Start(rules) => MessageView::Start(rules@),
            BotMessage::Stop => MessageView::Stop,
            BotMessage::TripFound => MessageView::TripFound,
            BotMessage::CopyScreen => MessageView::CopyScreen,
            BotMessage::Waiting(s) => MessageView::Waiting(*s),
            BotMessage::Copied(text) => MessageView::Copied(text@),
            BotMessage::Skipped(e) => MessageView::Skipped(*e),
        }
    }
}

/// Screen regions and refresh timing of the worker.
#[derive(Debug, Clone, Copy, PartialEq, Eq)]
pub struct BotConfig {
    /// The "last updated" region: left, top, width, height.
    pub updated_time_pos: (i32, i32, u32, u32),
    /// Bounds, in seconds, of the interval between page refreshes.
    pub refresh_interval: (u32, u32),
    /// The loading indicator region: left, top, width, height.
    pub refresh: [u32; 4],
}

impl Default for BotConfig {
    fn default() -> (r: BotConfig)
        ensures
            r.updated_time_pos == (517i32, 179i32, 150u32, 40u32),
            r.refresh_interval == (10u32, 30u32),
            r.refresh@ == seq![87u32, 62, 20, 20],
    {
        BotConfig {
            updated_time_pos: (517, 179, 150, 40),
            refresh_interval: (10, 30),
            refresh: [87, 62, 20, 20],
        }
    }
}

/// Whether the worker polls, has latched an alert, or is stopped.
#[derive(Debug, Clone, Copy, PartialEq, Eq, Structural, Hash)]
pub enum AppState {
    Stopped,
    Running,
    Alerting,
}

/// Where the worker is within one iteration of its loop.
#[derive(Debug, Clone, Copy, PartialEq, Eq, Structural, Hash)]
pub enum Phase {
    /// At the top of the loop, waiting for the start event.
    Top,
    /// Waiting for the capture of the "last updated" region.
    AwaitCapture,
    /// Waiting for the scraped text.
    AwaitText,
    /// In the idle wait, with this many milliseconds left.
    Idle(u64),
}

/// What the host reports back to the worker.
pub enum Event {
    /// The top of an iteration, with the host's clock and the command, if
    /// any, received since the last check.
    Begin { now_ms: u64, command: Option<BotMessage> },
    /// The pixels of the "last updated" region.
    Captured(Vec<u8>),
    /// The scraped text, or `None` when the clipboard could not be read.
    Copied(Option<String>),
    /// One idle slice elapsed; whether cancellation was requested, and the
    /// command, if any, received meanwhile.
    SliceDone { cancel: bool, command: Option<BotMessage> },
}

pub enum EventView {
    Begin { now_ms: u64, command: Option<MessageView> },
    Captured(Seq<u8>),
    Copied(Option<Seq<char>>),
    SliceDone { cancel: bool, command: Option<MessageView> },
}

pub open spec fn message_opt_view(m: Option<BotMessage>) -> Option<MessageView> {
    match m {
        Some(msg) => Some(msg@),
        None => None,
    }
}

impl View for Event {
    type V = EventView;

    open spec fn view(&self) -> EventView {
        match self {
            Event::Begin { now_ms, command } => EventView::Begin {
                now_ms: *now_ms,
                command: message_opt_view(*command),
            },
            Event::Captured(px) => EventView::Captured(px@),
            Event::Copied(text) => EventView::Copied(
                match text {
                    Some(t) => Some(t@),
                    None => None,
                },
            ),
            Event::SliceDone { cancel, command } => EventView::SliceDone {
                cancel: *cancel,
                command: message_opt_view(*command),
            },
        }
    }
}

/// What the worker asks the host to do.
pub enum Action {
    /// Click into the portal window, let it settle, and take a new snapshot
    /// of the loading indicator.
    Refocus,
    /// Silence the alert sound.
    Silence,
    /// Sleep this many milliseconds.
    Sleep(u64),
    /// Reload the page, wait until it has loaded, and click back into it.
    Refresh,
    /// Capture the "last updated" region and report [`Event::Captured`].
    Capture,
    /// Select all and copy the page, then report [`Event::Copied`].
    Copy,
    /// Run the pickup sequence for the trip with this id and sound the alert.
    Pickup(String),
    /// Sound the alert repeatedly.
    Alert,
    /// Send this status message to the host.
    Notify(BotMessage),
    /// Sleep one idle slice of this many milliseconds, then report
    /// [`Event::SliceDone`].
    WaitSlice(u64),
}

pub enum ActionView {
    Refocus,
    Silence,
    Sleep(u64),
    Refresh,
    Capture,
    Copy,
    Pickup(Seq<char>),
    Alert,
    Notify(MessageView),
    WaitSlice(u64),
}

impl View for Action {
    type V = ActionView;

    open spec fn view(&self) -> ActionView {
        match self {
            Action::Refocus => ActionView::Refocus,
            Action::Silence => ActionView::Silence,
            Action::Sleep(ms) => ActionView::Sleep(*ms),
            Action::Refresh => ActionView::Refresh,
            Action::Capture => ActionView::Capture,
            Action::Copy => ActionView::Copy,
            Action::Pickup(id) => ActionView::Pickup(id@),
            Action::Alert => ActionView::Alert,
            Action::Notify(msg) => ActionView::Notify(msg@),
            Action::WaitSlice(ms) => ActionView::WaitSlice(*ms),
        }
    }
}

pub open spec fn actions_view(v: Seq<Action>) -> Seq<ActionView> {
    v.map_values(|a: Action| a@)
}

/// How long the worker sleeps per iteration while not running.
pub const STOPPED_SLEEP_MS: u64 = 100;

/// The length of one idle slice; cancellation is checked after each.
pub const SLICE_MS: u64 = 50;

/// Bounds of the idle wait at the end of an iteration, in milliseconds.
pub const IDLE_MIN_MS: u64 = 150;
pub const IDLE_MAX_MS: u64 = 250;

/// The random values one step may use: the next refresh interval, in
/// seconds, and the length of the next idle wait, in milliseconds.
#[derive(Debug, Clone, Copy, PartialEq, Eq, Structural)]
pub struct Draws {
    pub refresh_secs: u64,
    pub idle_ms: u64,
}

/// The worker's state.
pub struct Monitor {
    pub state: AppState,
    pub phase: Phase,
    /// The rules adopted by the last start command.
    pub rules: Vec<Rule>,
    /// The last capture of the "last updated" region.
    pub reference: Vec<u8>,
    /// When the page was last refreshed, on the host's clock.
    pub last_refresh_ms: u64,
    /// How long after the last refresh the next one is due, in seconds.
    pub refresh_interval_secs: u64,
    /// Bounds of the refresh interval, in seconds.
    pub refresh_bounds: (u32, u32),
}

pub struct MonitorView {
    pub state: AppState,
    pub phase: Phase,
    pub rules: Seq<Rule>,
    pub reference: Seq<u8>,
    pub last_refresh_ms: u64,
    pub refresh_interval_secs: u64,
    pub refresh_bounds: (u32, u32),
}

impl View for Monitor {
    type V = MonitorView;

    open spec fn view(&self) -> MonitorView {
        MonitorView {
            state: self.state,
            phase: self.phase,
            rules: self.rules@,
            reference: self.reference@,
            last_refresh_ms: self.last_refresh_ms,
            refresh_interval_secs: self.refresh_interval_secs,
            refresh_bounds: self.refresh_bounds,
        }
    }
}

/// Draws that the random sources can give for a monitor: a refresh interval
/// within the configured bounds (their lower end when the bounds are empty)
/// and an idle wait within [`IDLE_MIN_MS`]`..`[`IDLE_MAX_MS`].
pub open spec fn valid_draws(m: MonitorView, d: Draws) -> bool {
    &&& if m.refresh_bounds.0 < m.refresh_bounds.1 {
        m.refresh_bounds.0 <= d.refresh_secs < m.refresh_bounds.1
    } else {
        d.refresh_secs == m.refresh_bounds.0
    }
    &&& IDLE_MIN_MS <= d.idle_ms < IDLE_MAX_MS
}

/// A command applied: `Start` adopts its rules and runs, except while an
/// alert is latched, which only `Stop` ends; `Stop` stops and silences the
/// alert. Other messages change nothing.
pub open spec fn apply_command(m: MonitorView, command: Option<MessageView>) -> (
    MonitorView,
    Seq<ActionView>,
) {
    match command {
        Some(MessageView::Start(rules)) => if m.state == AppState::Alerting {
            (m, seq![])
        } else {
            (MonitorView { state: AppState::Running, rules, ..m }, seq![ActionView::Refocus])
        },
        Some(MessageView::Stop) => (
            MonitorView { state: AppState::Stopped, ..m },
            seq![ActionView::Silence],
        ),
        _ => (m, seq![]),
    }
}

/// The page is due for a refresh at `now_ms`.
pub open spec fn refresh_due(m: MonitorView, now_ms: u64) -> bool {
    now_ms > m.last_refresh_ms + m.refresh_interval_secs * 1000
}

/// The first trip, in order, that the rules resolve to pickup or alert,
/// with that action.
pub open spec fn first_hit(rules: Seq<Rule>, trips: Seq<TripView>) -> Option<(BotAction, Seq<char>)>
    decreases trips.len(),
{
    if trips.len() == 0 {
        None
    } else {
        let a = resolved_action(rules, trips[0]);
        if a == BotAction::Pickup || a == BotAction::Alert {
            Some((a, trips[0].id))
        } else {
            first_hit(rules, trips.drop_first())
        }
    }
}

/// One status notice for each skipped trip line.
pub open spec fn skipped_notices(errs: Seq<ParseTripError>) -> Seq<ActionView> {
    errs.map_values(|e: ParseTripError| ActionView::Notify(MessageView::Skipped(e)))
}

/// Entering the idle wait.
pub open spec fn begin_idle(m: MonitorView, d: Draws) -> MonitorView {
    MonitorView { phase: Phase::Idle(d.idle_ms), ..m }
}

/// The worker's transition: the next state and the actions, in order, for
/// event `e` in state `m`, given the random draws `d`. An event that the
/// current phase does not wait for changes nothing.
pub open spec fn next(m: MonitorView, e: EventView, d: Draws) -> (MonitorView, Seq<ActionView>) {
    match (m.phase, e) {
        (Phase::Top, EventView::Begin { now_ms, command }) => {
            let (m1, a1) = apply_command(m, command);
            if m1.state != AppState::Running {
                (m1, a1.push(ActionView::Sleep(STOPPED_SLEEP_MS)))
            } else if refresh_due(m1, now_ms) {
                (
                    MonitorView {
                        phase: Phase::AwaitCapture,
                        last_refresh_ms: now_ms,
                        refresh_interval_secs: d.refresh_secs,
                        ..m1
                    },
                    a1 + seq![
                        ActionView::Notify(MessageView::Waiting(d.refresh_secs)),
                        ActionView::Refresh,
                        ActionView::Capture,
                    ],
                )
            } else {
                (MonitorView { phase: Phase::AwaitCapture, ..m1 }, a1.push(ActionView::Capture))
            }
        },
        (Phase::AwaitCapture, EventView::Captured(px)) => {
            if px != m.reference {
                (
                    MonitorView { phase: Phase::AwaitText, reference: px, ..m },
                    seq![ActionView::Notify(MessageView::CopyScreen), ActionView::Copy],
                )
            } else {
                (begin_idle(m, d), seq![ActionView::WaitSlice(SLICE_MS)])
            }
        },
        (Phase::AwaitText, EventView::Copied(None)) => (
            begin_idle(m, d),
            seq![ActionView::WaitSlice(SLICE_MS)],
        ),
        (Phase::AwaitText, EventView::Copied(Some(text))) => {
            let notice = seq![ActionView::Notify(MessageView::Copied(text))] + skipped_notices(
                listing_skipped(text),
            );
            let idle = begin_idle(m, d);
            match first_hit(m.rules, listing_trips(text)) {
                Some((BotAction::Pickup, id)) => (
                    MonitorView { state: AppState::Stopped, ..idle },
                    notice + seq![
                        ActionView::Pickup(id),
                        ActionView::Notify(MessageView::Stop),
                        ActionView::WaitSlice(SLICE_MS),
                    ],
                ),
                Some((_, _)) => (
                    MonitorView { state: AppState::Alerting, ..idle },
                    notice + seq![
                        ActionView::Alert,
                        ActionView::Notify(MessageView::TripFound),
                        ActionView::WaitSlice(SLICE_MS),
                    ],
                ),
                None => (idle, notice.push(ActionView::WaitSlice(SLICE_MS))),
            }
        },
        (Phase::Idle(left), EventView::SliceDone { cancel, command }) => {
            let (m1, a1) = apply_command(MonitorView { phase: Phase::Top, ..m }, command);
            if cancel {
                (
                    MonitorView { state: AppState::Stopped, ..m1 },
                    a1.push(ActionView::Notify(MessageView::Stop)),
                )
            } else if command is Some {
                (m1, a1)
            } else if left > SLICE_MS {
                (
                    MonitorView { phase: Phase::Idle((left - SLICE_MS) as u64), ..m },
                    seq![ActionView::WaitSlice(SLICE_MS)],
                )
            } else {
                (MonitorView { phase: Phase::Top, ..m }, seq![])
            }
        },
        _ => (m, seq![]),
    }
}

/// Relies on `rand::random_range`: a value drawn from the thread-local
/// generator, within the half-open range, which must not be empty (the
/// function panics on an empty range).
#[verifier::external_body]
fn random_in(lo: u64, hi: u64) -> (r: u64)
    requires
        lo < hi,
    ensures
        lo <= r < hi,
{
    rand::random_range(lo..hi)
}

/// Whether two captures hold the same pixels.
fn same_pixels(a: &Vec<u8>, b: &Vec<u8>) -> (r: bool)
    ensures
        r == (a@ == b@),
{
    if a.len() != b.len() {
        return false;
    }
    let mut i: usize = 0;
    while i < a.len()
        invariant
            i <= a.len() == b.len(),
            forall|k: int| 0 <= k < i ==> a@[k] == b@[k],
        decreases a.len() - i,
    {
        if a[i] != b[i] {
            return false;
        }
        i = i + 1;
    }
    assert(a@ =~= b@);
    true
}

/// The first trip, in order, that the rules resolve to pickup or alert,
/// with that action and the trip's id.
fn find_hit(rules: &Vec<Rule>, trips: &Vec<Trip>) -> (r: Option<(BotAction, String)>)
    ensures
        match (r, first_hit(rules@, trips_view(trips@))) {
            (None, None) => true,
            (Some((a, id)), Some((b, jd))) => a == b && id@ == jd,
            _ => false,
        },
{
    let ghost tv = trips_view(trips@);
    let mut i: usize = 0;
    assert(tv.skip(0) =~= tv);
    while i < trips.len()
        invariant
            i <= trips.len(),
            tv == trips_view(trips@),
            first_hit(rules@, tv) == first_hit(rules@, tv.skip(i as int)),
        decreases trips.len() - i,
    {
        let a = resolve_action(rules, &trips[i]);
        assert(tv.skip(i as int)[0] == tv[i as int]);
        assert(tv.skip(i as int).drop_first() =~= tv.skip(i + 1));
        if a == BotAction::Pickup || a == BotAction::Alert {
            return Some((a, trips[i].id.clone()));
        }
        i = i + 1;
    }
    None
}

fn single(a: Action) -> (r: Vec<Action>)
    ensures
        actions_view(r@) == seq![a@],
{
    let mut v: Vec<Action> = Vec::new();
    v.push(a);
    assert(actions_view(v@) =~= seq![a@]);
    v
}

fn push_action(v: &mut Vec<Action>, a: Action)
    ensures
        actions_view(final(v)@) == actions_view(old(v)@).push(a@),
{
    let ghost before = v@;
    v.push(a);
    assert(actions_view(v@) =~= actions_view(before).push(a@));
}

impl Monitor {
    /// A stopped worker with the given refresh bounds, whose reference
    /// capture is `baseline` and whose first refresh is due after the lower
    /// bound.
    pub fn new(config: &BotConfig, baseline: Vec<u8>, now_ms: u64) -> (r: Monitor)
        ensures
            r@.state == AppState::Stopped,
            r@.phase == Phase::Top,
            r@.rules.len() == 0,
            r@.reference == baseline@,
            r@.last_refresh_ms == now_ms,
            r@.refresh_interval_secs == config.refresh_interval.0,
            r@.refresh_bounds == config.refresh_interval,
    {
        Monitor {
            state: AppState::Stopped,
            phase: Phase::Top,
            rules: Vec::new(),
            reference: baseline,
            last_refresh_ms: now_ms,
            refresh_interval_secs: config.refresh_interval.0 as u64,
            refresh_bounds: config.refresh_interval,
        }
    }

    fn apply(&mut self, command: Option<BotMessage>) -> (r: Vec<Action>)
        ensures
            (final(self)@, actions_view(r@)) == apply_command(old(self)@, message_opt_view(command)),
    {
        match command {
            Some(BotMessage::Start(rules)) => {
                if self.state == AppState::Alerting {
                    let v: Vec<Action> = Vec::new();
                    assert(actions_view(v@) =~= seq![]);
                    return v;
                }
                self.state = AppState::Running;
                self.rules = rules;
                single(Action::Refocus)
            },
            Some(BotMessage::Stop) => {
                self.state = AppState::Stopped;
                single(Action::Silence)
            },
            _ => {
                let v: Vec<Action> = Vec::new();
                assert(actions_view(v@) =~= seq![]);
                v
            },
        }
    }

    /// The transition for `event` with the random values `d`: updates the
    /// state and returns the actions to perform, in order (see [`next`]).
    pub fn step_with(&mut self, event: Event, d: Draws) -> (r: Vec<Action>)
        ensures
            (final(self)@, actions_view(r@)) == next(old(self)@, event@, d),
    {
        let ghost m = self@;
        let ghost e = event@;
        let mut none: Vec<Action> = Vec::new();
        assert(actions_view(none@) =~= seq![]);
        match event {
            Event::Begin { now_ms, command } => {
                if self.phase != Phase::Top {
                    return none;
                }
                let mut acts = self.apply(command);
                if self.state != AppState::Running {
                    push_action(&mut acts, Action::Sleep(STOPPED_SLEEP_MS));
                    return acts;
                }
                let due = now_ms > self.last_refresh_ms && (now_ms - self.last_refresh_ms) as u128
                    > self.refresh_interval_secs as u128 * 1000;
                if due {
                    self.last_refresh_ms = now_ms;
                    self.refresh_interval_secs = d.refresh_secs;
                    push_action(&mut acts, Action::Notify(BotMessage::Waiting(d.refresh_secs)));
                    push_action(&mut acts, Action::Refresh);
                }
                self.phase = Phase::AwaitCapture;
                let ghost before = actions_view(acts@);
                push_action(&mut acts, Action::Capture);
                proof {
                    let (m1, a1) = apply_command(m, message_opt_view(command));
                    if due {
                        assert(before == a1 + seq![
                            ActionView::Notify(MessageView::Waiting(d.refresh_secs)),
                            ActionView::Refresh,
                        ]);
                        assert(actions_view(acts@) =~= a1 + seq![
                            ActionView::Notify(MessageView::Waiting(d.refresh_secs)),
                            ActionView::Refresh,
                            ActionView::Capture,
                        ]);
                    }
                }
                acts
            },
            Event::Captured(px) => {
                if self.phase != Phase::AwaitCapture {
                    return none;
                }
                if !same_pixels(&px, &self.reference) {
                    self.reference = px;
                    self.phase = Phase::AwaitText;
                    let mut acts = single(Action::Notify(BotMessage::CopyScreen));
                    push_action(&mut acts, Action::Copy);
                    acts
                } else {
                    self.phase = Phase::Idle(d.idle_ms);
                    single(Action::WaitSlice(SLICE_MS))
                }
            },
            Event::Copied(text) => {
                if self.phase != Phase::AwaitText {
                    return none;
                }
                self.phase = Phase::Idle(d.idle_ms);
                match text {
                    None => single(Action::WaitSlice(SLICE_MS)),
                    Some(text) => {
                        let trips = parse_trips(text.as_str());
                        let hit = find_hit(&self.rules, &trips);
                        let skipped = skipped_records(text.as_str());
                        let ghost text_v = text@;
                        let mut acts = single(Action::Notify(BotMessage::Copied(text)));
                        let ghost head = actions_view(acts@);
                        let mut k: usize = 0;
                        while k < skipped.len()
                            invariant
                                k <= skipped.len(),
                                actions_view(acts@) == head + skipped_notices(
                                    skipped@.take(k as int),
                                ),
                            decreases skipped.len() - k,
                        {
                            push_action(&mut acts, Action::Notify(BotMessage::Skipped(skipped[k])));
                            assert(skipped_notices(skipped@.take(k + 1)) =~= skipped_notices(
                                skipped@.take(k as int),
                            ).push(ActionView::Notify(MessageView::Skipped(skipped@[k as int]))));
                            k = k + 1;
                        }
                        assert(skipped@.take(skipped.len() as int) =~= skipped@);
                        match hit {
                            Some((BotAction::Pickup, id)) => {
                                self.state = AppState::Stopped;
                                push_action(&mut acts, Action::Pickup(id));
                                push_action(&mut acts, Action::Notify(BotMessage::Stop));
                            },
                            Some((_, _)) => {
                                self.state = AppState::Alerting;
                                push_action(&mut acts, Action::Alert);
                                push_action(&mut acts, Action::Notify(BotMessage::TripFound));
                            },
                            None => {},
                        }
                        push_action(&mut acts, Action::WaitSlice(SLICE_MS));
                        proof {
                            let notice = seq![ActionView::Notify(MessageView::Copied(text_v))]
                                + skipped_notices(listing_skipped(text_v));
                            match first_hit(m.rules, listing_trips(text_v)) {
                                Some((BotAction::Pickup, id)) => {
                                    assert(actions_view(acts@) =~= notice + seq![
                                        ActionView::Pickup(id),
                                        ActionView::Notify(MessageView::Stop),
                                        ActionView::WaitSlice(SLICE_MS),
                                    ]);
                                },
                                Some((_, _)) => {
                                    assert(actions_view(acts@) =~= notice + seq![
                                        ActionView::Alert,
                                        ActionView::Notify(MessageView::TripFound),
                                        ActionView::WaitSlice(SLICE_MS),
                                    ]);
                                },
                                None => {},
                            }
                        }
                        acts
                    },
                }
            },
            Event::SliceDone { cancel, command } => {
                let left = match self.phase {
                    Phase::Idle(left) => left,
                    _ => {
                        return none;
                    },
                };
                if cancel || command.is_some() {
                    self.phase = Phase::Top;
                    let mut acts = self.apply(command);
                    if cancel {
                        self.state = AppState::Stopped;
                        push_action(&mut acts, Action::Notify(BotMessage::Stop));
                    }
                    acts
                } else if left > SLICE_MS {
                    self.phase = Phase::Idle(left - SLICE_MS);
                    single(Action::WaitSlice(SLICE_MS))
                } else {
                    self.phase = Phase::Top;
                    none
                }
            },
        }
    }

    /// The transition for `event`, with a refresh interval and an idle wait
    /// drawn at random: the result is that of [`Monitor::step_with`] for
    /// some draws within the configured bounds.
    pub fn step(&mut self, event: Event) -> (r: Vec<Action>)
        ensures
            exists|d: Draws|
                valid_draws(old(self)@, d) && next(old(self)@, event@, d) == (
                    final(self)@,
                    actions_view(r@),
                ),
    {
        let (lo, hi) = self.refresh_bounds;
        let refresh_secs = if lo < hi {
            random_in(lo as u64, hi as u64)
        } else {
            lo as u64
        };
        let idle_ms = random_in(IDLE_MIN_MS, IDLE_MAX_MS);
        let d = Draws { refresh_secs, idle_ms };
        assert(valid_draws(self@, d));
        self.step_with(event, d)
    }
}

/// The number of scrapes (copy actions) among `acts`.
pub open spec fn scrapes(acts: Seq<ActionView>) -> nat
    decreases acts.len(),
{
    if acts.len() == 0 {
        0
    } else {
        scrapes(acts.drop_last()) + if acts.last() is Copy {
            1nat
        } else {
            0nat
        }
    }
}

/// The states and actions of the worker through the events `evs`, the
/// `k`-th with the draws `ds[k]`.
pub open spec fn run(m: MonitorView, evs: Seq<EventView>, ds: Seq<Draws>) -> (
    MonitorView,
    Seq<ActionView>,
)
    decreases evs.len(),
{
    if evs.len() == 0 || ds.len() == 0 {
        (m, seq![])
    } else {
        let (m1, a1) = next(m, evs[0], ds[0]);
        let (m2, a2) = run(m1, evs.drop_first(), ds.drop_first());
        (m2, a1 + a2)
    }
}

/// The event carries a start command.
pub open spec fn starts(e: EventView) -> bool {
    match e {
        EventView::Begin { command: Some(MessageView::Start(_)), .. } => true,
        EventView::SliceDone { command: Some(MessageView::Start(_)), .. } => true,
        _ => false,
    }
}

proof fn lemma_no_copy_no_scrape(acts: Seq<ActionView>)
    requires
        forall|k: int| 0 <= k < acts.len() ==> !(#[trigger] acts[k] is Copy),
    ensures
        scrapes(acts) == 0,
    decreases acts.len(),
{
    if acts.len() > 0 {
        lemma_no_copy_no_scrape(acts.drop_last());
    }
}

proof fn lemma_scrapes_concat(a: Seq<ActionView>, b: Seq<ActionView>)
    ensures
        scrapes(a + b) == scrapes(a) + scrapes(b),
    decreases b.len(),
{
    if b.len() == 0 {
        assert(a + b =~= a);
    } else {
        assert((a + b).drop_last() =~= a + b.drop_last());
        lemma_scrapes_concat(a, b.drop_last());
    }
}

/// The rule set changes only when a start command adopts a new one.
pub proof fn lemma_rules_change_only_on_start(m: MonitorView, e: EventView, d: Draws)
    requires
        !starts(e),
    ensures
        next(m, e, d).0.rules == m.rules,
{
}

/// Every event but a capture leaves the reference capture alone and asks
/// for no scrape.
pub proof fn lemma_only_captures_scrape(m: MonitorView, e: EventView, d: Draws)
    requires
        !(e is Captured),
    ensures
        next(m, e, d).0.reference == m.reference,
        scrapes(next(m, e, d).1) == 0,
{
    let acts = next(m, e, d).1;
    assert forall|k: int| 0 <= k < acts.len() implies !(#[trigger] acts[k] is Copy) by {}
    lemma_no_copy_no_scrape(acts);
}

/// A capture is scraped exactly when its pixels differ from the reference
/// capture, and becomes the new reference.
pub proof fn lemma_capture_scrapes_on_change(m: MonitorView, px: Seq<u8>, d: Draws)
    requires
        m.phase == Phase::AwaitCapture,
    ensures
        next(m, EventView::Captured(px), d).0.reference == px,
        scrapes(next(m, EventView::Captured(px), d).1) == if px == m.reference {
            0nat
        } else {
            1nat
        },
        px != m.reference ==> next(m, EventView::Captured(px), d).0.phase == Phase::AwaitText,
{
    reveal_with_fuel(scrapes, 3);
    let acts = next(m, EventView::Captured(px), d).1;
    if px != m.reference {
        assert(acts.drop_last() =~= seq![ActionView::Notify(MessageView::CopyScreen)]);
        assert(acts.drop_last().drop_last() =~= Seq::<ActionView>::empty());
    } else {
        assert(acts.drop_last() =~= Seq::<ActionView>::empty());
    }
}

/// Reference capture and scrapes through a run of events none of which is
/// a capture.
proof fn lemma_run_without_captures(m: MonitorView, evs: Seq<EventView>, ds: Seq<Draws>)
    requires
        forall|k: int| 0 <= k < evs.len() ==> !(#[trigger] evs[k] is Captured),
    ensures
        run(m, evs, ds).0.reference == m.reference,
        scrapes(run(m, evs, ds).1) == 0,
    decreases evs.len(),
{
    if evs.len() > 0 && ds.len() > 0 {
        let (m1, a1) = next(m, evs[0], ds[0]);
        lemma_only_captures_scrape(m, evs[0], ds[0]);
        let rest = evs.drop_first();
        assert forall|k: int| 0 <= k < rest.len() implies !(#[trigger] rest[k] is Captured) by {
            assert(rest[k] == evs[k + 1]);
        }
        lemma_run_without_captures(m1, rest, ds.drop_first());
        lemma_scrapes_concat(a1, run(m1, rest, ds.drop_first()).1);
    }
}

/// Two captures of the same pixels, with no capture between them, scrape
/// at most once: the first scrapes only if the pixels changed, nothing
/// between them scrapes, and the second does not.
pub proof fn lemma_identical_captures_scrape_once(
    m: MonitorView,
    px: Seq<u8>,
    evs: Seq<EventView>,
    ds: Seq<Draws>,
    d0: Draws,
    d1: Draws,
)
    requires
        m.phase == Phase::AwaitCapture,
        forall|k: int| 0 <= k < evs.len() ==> !(#[trigger] evs[k] is Captured),
        run(next(m, EventView::Captured(px), d0).0, evs, ds).0.phase == Phase::AwaitCapture,
    ensures
        ({
            let (m1, a1) = next(m, EventView::Captured(px), d0);
            let (m2, a2) = run(m1, evs, ds);
            &&& scrapes(a1) == if px == m.reference {
                0nat
            } else {
                1nat
            }
            &&& scrapes(a2) == 0
            &&& scrapes(next(m2, EventView::Captured(px), d1).1) == 0
        }),
{
    lemma_capture_scrapes_on_change(m, px, d0);
    let m1 = next(m, EventView::Captured(px), d0).0;
    lemma_run_without_captures(m1, evs, ds);
    lemma_capture_scrapes_on_change(run(m1, evs, ds).0, px, d1);
}

/// Cancellation, or a stop command, during an idle slice stops the worker
/// when that slice ends, back at the top of its loop, without a scrape.
pub proof fn lemma_stop_ends_idle(
    m: MonitorView,
    cancel: bool,
    command: Option<MessageView>,
    d: Draws,
)
    requires
        m.phase is Idle,
        cancel || command == Some(MessageView::Stop),
    ensures
        next(m, EventView::SliceDone { cancel, command }, d).0.state == AppState::Stopped,
        next(m, EventView::SliceDone { cancel, command }, d).0.phase == Phase::Top,
        scrapes(next(m, EventView::SliceDone { cancel, command }, d).1) == 0,
{
    lemma_only_captures_scrape(m, EventView::SliceDone { cancel, command }, d);
}

/// A worker stopped at the top of its loop stays stopped, and scrapes
/// nothing, through any events that carry no start command.
pub proof fn lemma_stopped_until_started(m: MonitorView, evs: Seq<EventView>, ds: Seq<Draws>)
    requires
        m.state == AppState::Stopped,
        m.phase == Phase::Top,
        forall|k: int| 0 <= k < evs.len() ==> !starts(#[trigger] evs[k]),
    ensures
        run(m, evs, ds).0.state == AppState::Stopped,
        run(m, evs, ds).0.phase == Phase::Top,
        scrapes(run(m, evs, ds).1) == 0,
    decreases evs.len(),
{
    if evs.len() > 0 && ds.len() > 0 {
        let (m1, a1) = next(m, evs[0], ds[0]);
        assert(!starts(evs[0]));
        assert forall|k: int| 0 <= k < a1.len() implies !(#[trigger] a1[k] is Copy) by {}
        lemma_no_copy_no_scrape(a1);
        let rest = evs.drop_first();
        assert forall|k: int| 0 <= k < rest.len() implies !starts(#[trigger] rest[k]) by {
            assert(rest[k] == evs[k + 1]);
        }
        lemma_stopped_until_started(m1, rest, ds.drop_first());
        lemma_scrapes_concat(a1, run(m1, rest, ds.drop_first()).1);
    }
}

/// A stop during the idle wait is final until the next start command: the
/// worker is stopped when the slice ends and scrapes nothing afterwards.
pub proof fn lemma_stop_during_idle(
    m: MonitorView,
    cancel: bool,
    command: Option<MessageView>,
    d: Draws,
    evs: Seq<EventView>,
    ds: Seq<Draws>,
)
    requires
        m.phase is Idle,
        cancel || command == Some(MessageView::Stop),
        forall|k: int| 0 <= k < evs.len() ==> !starts(#[trigger] evs[k]),
    ensures
        ({
            let (m1, a1) = next(m, EventView::SliceDone { cancel, command }, d);
            &&& m1.state == AppState::Stopped
            &&& scrapes(a1) == 0
            &&& run(m1, evs, ds).0.state == AppState::Stopped
            &&& scrapes(run(m1, evs, ds).1) == 0
        }),
{
    lemma_stop_ends_idle(m, cancel, command, d);
    lemma_stopped_until_started(next(m, EventView::SliceDone { cancel, command }, d).0, evs, ds);
}

/// The event carries a stop: the cancellation hotkey, or a `Stop` command.
pub open spec fn stops(e: EventView) -> bool {
    match e {
        EventView::Begin { command: Some(MessageView::Stop), .. } => true,
        EventView::SliceDone { cancel, command } => cancel || command == Some(MessageView::Stop),
        _ => false,
    }
}

/// None of the actions refreshes the page, captures it or scrapes it.
pub open spec fn no_polling(acts: Seq<ActionView>) -> bool {
    forall|k: int|
        0 <= k < acts.len() ==> !(#[trigger] acts[k] is Refresh) && !(acts[k] is Capture) && !(
        acts[k] is Copy)
}

/// The worker is alerting, at the top of its loop or in its idle wait (the
/// only places an alert is latched in).
pub open spec fn alert_latched(m: MonitorView) -> bool {
    m.state == AppState::Alerting && (m.phase is Top || m.phase is Idle)
}

/// A latched alert holds on every event that carries no stop (a `Start`
/// included): the worker stays alerting and does not refresh, capture or
/// scrape.
pub proof fn lemma_alert_latched(m: MonitorView, e: EventView, d: Draws)
    requires
        alert_latched(m),
        !stops(e),
    ensures
        alert_latched(next(m, e, d).0),
        no_polling(next(m, e, d).1),
{
}

/// Through any run of events none of which carries a stop, a latched alert
/// stays latched and nothing is refreshed, captured or scraped.
pub proof fn lemma_alert_latched_run(m: MonitorView, evs: Seq<EventView>, ds: Seq<Draws>)
    requires
        alert_latched(m),
        forall|k: int| 0 <= k < evs.len() ==> !stops(#[trigger] evs[k]),
    ensures
        alert_latched(run(m, evs, ds).0),
        no_polling(run(m, evs, ds).1),
    decreases evs.len(),
{
    if evs.len() > 0 && ds.len() > 0 {
        let (m1, a1) = next(m, evs[0], ds[0]);
        assert(!stops(evs[0]));
        lemma_alert_latched(m, evs[0], ds[0]);
        let rest = evs.drop_first();
        assert forall|k: int| 0 <= k < rest.len() implies !stops(#[trigger] rest[k]) by {
            assert(rest[k] == evs[k + 1]);
        }
        lemma_alert_latched_run(m1, rest, ds.drop_first());
        let a2 = run(m1, rest, ds.drop_first()).1;
        assert forall|k: int| 0 <= k < (a1 + a2).len() implies !(#[trigger] (a1 + a2)[k] is Refresh)
            && !((a1 + a2)[k] is Capture) && !((a1 + a2)[k] is Copy) by {
            if k >= a1.len() {
                assert((a1 + a2)[k] == a2[k - a1.len()]);
            } else {
                assert((a1 + a2)[k] == a1[k]);
            }
        }
    }
}

/// The captures the worker acts on during a run: the pixels of each
/// capture event that arrives while it waits for one, in order.
pub open spec fn captures_seen(m: MonitorView, evs: Seq<EventView>, ds: Seq<Draws>) -> Seq<
    Seq<u8>,
>
    decreases evs.len(),
{
    if evs.len() == 0 || ds.len() == 0 {
        seq![]
    } else {
        let here = match (m.phase, evs[0]) {
            (Phase::AwaitCapture, EventView::Captured(px)) => seq![px],
            _ => seq![],
        };
        here + captures_seen(next(m, evs[0], ds[0]).0, evs.drop_first(), ds.drop_first())
    }
}

/// How many captures of `caps` differ from the one before them, the first
/// from `prev`.
pub open spec fn changes(prev: Seq<u8>, caps: Seq<Seq<u8>>) -> nat
    decreases caps.len(),
{
    if caps.len() == 0 {
        0
    } else {
        (if caps[0] != prev {
            1nat
        } else {
            0nat
        }) + changes(caps[0], caps.drop_first())
    }
}

/// The last capture of `caps`, or `prev` when there is none.
pub open spec fn last_capture(prev: Seq<u8>, caps: Seq<Seq<u8>>) -> Seq<u8> {
    if caps.len() == 0 {
        prev
    } else {
        caps.last()
    }
}

/// Over any run, the worker scrapes exactly once per change of the captured
/// region: as often as a capture it acts on differs from the one before it
/// (the first from the reference it started with), and never otherwise.
/// Its reference is then the last capture it acted on.
pub proof fn lemma_scrapes_count_changes(m: MonitorView, evs: Seq<EventView>, ds: Seq<Draws>)
    ensures
        scrapes(run(m, evs, ds).1) == changes(m.reference, captures_seen(m, evs, ds)),
        run(m, evs, ds).0.reference == last_capture(m.reference, captures_seen(m, evs, ds)),
    decreases evs.len(),
{
    if evs.len() > 0 && ds.len() > 0 {
        let (m1, a1) = next(m, evs[0], ds[0]);
        let rest = evs.drop_first();
        let drest = ds.drop_first();
        lemma_scrapes_count_changes(m1, rest, drest);
        let a2 = run(m1, rest, drest).1;
        lemma_scrapes_concat(a1, a2);
        let tail = captures_seen(m1, rest, drest);
        let caps = captures_seen(m, evs, ds);
        match (m.phase, evs[0]) {
            (Phase::AwaitCapture, EventView::Captured(px)) => {
                lemma_capture_scrapes_on_change(m, px, ds[0]);
                assert(caps == seq![px] + tail);
                assert(caps[0] == px);
                assert(caps.drop_first() =~= tail);
                if tail.len() > 0 {
                    assert(caps.last() == tail.last());
                }
            },
            _ => {
                assert(caps =~= tail);
                if evs[0] is Captured {
                    assert(a1 =~= Seq::<ActionView>::empty());
                } else {
                    lemma_only_captures_scrape(m, evs[0], ds[0]);
                }
            },
        }
    }
}

} // verus!
