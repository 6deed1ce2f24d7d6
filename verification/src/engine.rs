//! The fishing state machine.
//!
//! Cast, wait for the float to settle, listen for the bite (three gates on the sound and the
//! right button held to focus), strike with the left button, skip the reeling animation or
//! reset, repeat. Time is counted in nanoseconds on a monotonic clock chosen by the caller.
use vstd::prelude::*;

use crate::input::{hotkey_edge, Hotkey, Hotkeys, RightHold};

verus! {

#[derive(Debug, Clone, Copy, PartialEq, Eq, Structural)]
pub enum State {
    Stopped,
    Idle,
    Casting,
    WaitingBite,
    Striking,
    Reeling,
}

impl State {
    /// The label shown in the interface.
    pub fn label(&self) -> (r: &'static str)
        ensures
            r@ == (match *self {
                State::Stopped => "已停止"@,
                State::Idle => "等待抛竿"@,
                State::Casting => "抛竿等待"@,
                State::WaitingBite => "等待咬钩"@,
                State::Striking => "刺鱼"@,
                State::Reeling => "收竿动画"@,
            }),
    {
        match self {
            State::Stopped => "已停止",
            State::Idle => "等待抛竿",
            State::Casting => "抛竿等待",
            State::WaitingBite => "等待咬钩",
            State::Striking => "刺鱼",
            State::Reeling => "收竿动画",
        }
    }
}

#[derive(Debug, Clone, Copy, PartialEq, Eq, Structural)]
pub struct Stats {
    pub casts: u64,
    pub bites: u64,
    pub catches: u64,
    pub misses: u64,
}

impl Default for Stats {
    fn default() -> (r: Self)
        ensures
            r == (Stats { casts: 0, bites: 0, catches: 0, misses: 0 }),
    {
        Stats { casts: 0, bites: 0, catches: 0, misses: 0 }
    }
}

/// What the caller observed during one tick.
#[derive(Debug, Clone, Copy, PartialEq, Eq, Structural)]
pub struct Sense {
    /// The game window is in the foreground.
    pub focused: bool,
    /// The best match against the bite template reaches the threshold.
    pub sim_ok: bool,
    /// The level of the matched segment lies within the level gate.
    pub level_ok: bool,
    /// The level of the matched segment is under the minimum level.
    pub level_below_min: bool,
    /// The pan of the matched segment lies within the pan gate.
    pub pan_ok: bool,
    /// The matched segment is louder on the left.
    pub pan_left: bool,
}

/// The settings the machine follows; durations in nanoseconds.
#[derive(Debug, Clone, Copy, PartialEq, Eq, Structural)]
pub struct MachineConfig {
    pub hold_rmb: bool,
    pub reset_on_timeout: bool,
    pub skip_anim: bool,
    pub double_cast: bool,
    pub cast_delay: u64,
    pub round_timeout: u64,
    pub strike_delay: u64,
    pub skip_anim_delay: u64,
    /// The reeling wait drawn for this tick, between its lower and upper bound.
    pub reel_wait: u64,
    /// The wait after skipping the animation drawn for this tick.
    pub post_skip_wait: u64,
}

/// A message for the log; the caller writes the figures it has into the text.
#[derive(Debug, Clone, Copy, PartialEq, Eq, Structural)]
pub enum Notice {
    GameNotFocused,
    WaitingForBite,
    RejectedDistant,
    RejectedLoud,
    RejectedOffCenter { left: bool },
    BiteDetected,
    RoundTimedOut { misses: u64 },
    ForcedReset,
    StrikeClicked { catches: u64 },
    AnimationSkipped,
    Cast { count: u64 },
}

/// What the caller must do, in order.
#[derive(Debug, Clone, Copy, PartialEq, Eq, Structural)]
pub enum Action {
    PressRight,
    ReleaseRight,
    Click,
    /// Switch to the knife and back to the rod.
    ResetStance,
    /// Restart the peak similarity of the round.
    ResetPeak,
    /// Fold the current similarity into the peak of the round.
    TrackPeak,
    Notify(Notice),
}

/// Least gap between two "game not focused" messages: 3 s.
pub const UNFOCUSED_LOG_GAP: u64 = 3_000_000_000;

/// Least gap between two "bite rejected" messages: 800 ms.
pub const REJECT_LOG_GAP: u64 = 800_000_000;

#[derive(Debug, Clone, Copy, PartialEq, Eq, Structural)]
pub struct Machine {
    pub state: State,
    pub stats: Stats,
    pub deadline: Option<u64>,
    pub last_unfocused_log: Option<u64>,
    pub last_reject_log: Option<u64>,
    pub anim_skipped: bool,
}

// ---------------------------------------------------------------------------
// Specification
// ---------------------------------------------------------------------------

/// The machine as it starts: idle, nothing counted.
pub open spec fn initial_machine() -> Machine {
    Machine {
        state: State::Idle,
        stats: Stats { casts: 0, bites: 0, catches: 0, misses: 0 },
        deadline: None,
        last_unfocused_log: None,
        last_reject_log: None,
        anim_skipped: false,
    }
}

/// No deadline, or it has passed.
pub open spec fn deadline_due(m: Machine, now: u64) -> bool {
    match m.deadline {
        Some(d) => now >= d,
        None => true,
    }
}

/// No earlier message, or it lies at least `gap` back.
pub open spec fn gap_elapsed(last: Option<u64>, now: u64, gap: u64) -> bool {
    match last {
        Some(t) => now >= t && now - t >= gap,
        None => true,
    }
}

/// The actions that release the right button.
pub open spec fn release_actions(down: bool) -> Seq<Action> {
    if down {
        seq![Action::ReleaseRight]
    } else {
        Seq::empty()
    }
}

/// The actions that hold the right button.
pub open spec fn press_actions(down: bool) -> Seq<Action> {
    if down {
        Seq::empty()
    } else {
        seq![Action::PressRight]
    }
}

/// The sums below fit, so that no counter overflows and no deadline either.
pub open spec fn step_fits(m: Machine, now: u64, c: MachineConfig) -> bool {
    &&& m.stats.casts < u64::MAX
    &&& m.stats.bites < u64::MAX
    &&& m.stats.catches < u64::MAX
    &&& m.stats.misses < u64::MAX
    &&& now + c.cast_delay <= u64::MAX
    &&& now + c.round_timeout <= u64::MAX
    &&& now + c.strike_delay <= u64::MAX
    &&& now + c.skip_anim_delay <= u64::MAX
    &&& now + c.reel_wait <= u64::MAX
    &&& now + c.post_skip_wait <= u64::MAX
}

/// One tick: the machine after it, the actions it asks for, whether the right button
/// is held after it. `right` tells whether it is held before.
pub open spec fn transition(m: Machine, now: u64, s: Sense, c: MachineConfig, right: bool) -> (
    Machine,
    Seq<Action>,
    bool,
) {
    if !s.focused {
        if gap_elapsed(m.last_unfocused_log, now, UNFOCUSED_LOG_GAP) {
            (
                Machine { last_unfocused_log: Some(now), ..m },
                release_actions(right).push(Action::Notify(Notice::GameNotFocused)),
                false,
            )
        } else {
            (m, release_actions(right), false)
        }
    } else {
        let m = Machine { last_unfocused_log: None, ..m };
        match m.state {
            State::Idle => {
                let casts = (m.stats.casts + 1) as u64;
                let clicks = if c.double_cast {
                    seq![Action::Click, Action::Click]
                } else {
                    seq![Action::Click]
                };
                (
                    Machine {
                        state: State::Casting,
                        stats: Stats { casts, ..m.stats },
                        deadline: Some((now + c.cast_delay) as u64),
                        ..m
                    },
                    clicks.push(Action::Notify(Notice::Cast { count: casts })),
                    right,
                )
            },
            State::Casting => {
                if deadline_due(m, now) {
                    (
                        Machine {
                            state: State::WaitingBite,
                            deadline: Some((now + c.round_timeout) as u64),
                            anim_skipped: false,
                            ..m
                        },
                        seq![Action::ResetPeak, Action::Notify(Notice::WaitingForBite)],
                        right,
                    )
                } else {
                    (m, Seq::empty(), right)
                }
            },
            State::WaitingBite => {
                let hold = if c.hold_rmb {
                    press_actions(right)
                } else {
                    release_actions(right)
                };
                let held = c.hold_rmb;
                let pre = hold.push(Action::TrackPeak);
                if s.sim_ok {
                    if !s.level_ok || !s.pan_ok {
                        if gap_elapsed(m.last_reject_log, now, REJECT_LOG_GAP) {
                            let notice = if !s.level_ok {
                                if s.level_below_min {
                                    Notice::RejectedDistant
                                } else {
                                    Notice::RejectedLoud
                                }
                            } else {
                                Notice::RejectedOffCenter { left: s.pan_left }
                            };
                            (
                                Machine { last_reject_log: Some(now), ..m },
                                pre.push(Action::Notify(notice)),
                                held,
                            )
                        } else {
                            (m, pre, held)
                        }
                    } else {
                        let bites = (m.stats.bites + 1) as u64;
                        (
                            Machine {
                                state: State::Striking,
                                stats: Stats { bites, ..m.stats },
                                deadline: Some((now + c.strike_delay) as u64),
                                ..m
                            },
                            pre + release_actions(held) + seq![
                                Action::Notify(Notice::BiteDetected),
                            ],
                            false,
                        )
                    }
                } else if deadline_due(m, now) {
                    let misses = (m.stats.misses + 1) as u64;
                    let out = pre + release_actions(held) + seq![
                        Action::Notify(Notice::RoundTimedOut { misses }),
                    ];
                    if c.reset_on_timeout {
                        (
                            Machine { state: State::Idle, stats: Stats { misses, ..m.stats }, ..m },
                            out + seq![Action::Notify(Notice::ForcedReset), Action::ResetStance],
                            false,
                        )
                    } else {
                        (
                            Machine {
                                state: State::Reeling,
                                stats: Stats { misses, ..m.stats },
                                anim_skipped: true,
                                deadline: Some((now + c.reel_wait) as u64),
                                ..m
                            },
                            out.push(Action::Click),
                            false,
                        )
                    }
                } else {
                    (m, pre, held)
                }
            },
            State::Striking => {
                if deadline_due(m, now) {
                    let catches = (m.stats.catches + 1) as u64;
                    let deadline = if c.skip_anim {
                        (now + c.skip_anim_delay) as u64
                    } else {
                        (now + c.reel_wait) as u64
                    };
                    (
                        Machine {
                            state: State::Reeling,
                            stats: Stats { catches, ..m.stats },
                            anim_skipped: !c.skip_anim,
                            deadline: Some(deadline),
                            ..m
                        },
                        seq![Action::Click, Action::Notify(Notice::StrikeClicked { catches })],
                        right,
                    )
                } else {
                    (m, Seq::empty(), right)
                }
            },
            State::Reeling => {
                if deadline_due(m, now) {
                    if c.skip_anim && !m.anim_skipped {
                        (
                            Machine {
                                anim_skipped: true,
                                deadline: Some((now + c.post_skip_wait) as u64),
                                ..m
                            },
                            seq![Action::Click, Action::Notify(Notice::AnimationSkipped)],
                            right,
                        )
                    } else {
                        (Machine { state: State::Idle, ..m }, Seq::empty(), right)
                    }
                } else {
                    (m, Seq::empty(), right)
                }
            },
            State::Stopped => (m, Seq::empty(), right),
        }
    }
}

/// The bookkeeping that every reachable machine keeps: each cast ends in exactly one bite
/// or one miss, and each catch follows its bite.
pub open spec fn counts_consistent(m: Machine) -> bool {
    let st = m.stats;
    match m.state {
        State::Casting | State::WaitingBite => st.bites + st.misses + 1 == st.casts
            && st.catches == st.bites,
        State::Striking => st.bites + st.misses == st.casts && st.catches + 1 == st.bites,
        _ => st.bites + st.misses == st.casts && st.catches == st.bites,
    }
}

/// Casting, waiting for a bite, striking and reeling each end at a deadline.
pub open spec fn timed_state_has_deadline(m: Machine) -> bool {
    match m.state {
        State::Casting | State::WaitingBite | State::Striking | State::Reeling => m.deadline is Some,
        _ => true,
    }
}

// ---------------------------------------------------------------------------
// Laws
// ---------------------------------------------------------------------------

/// The machine starts with consistent counts.
pub proof fn lemma_initial_consistent()
    ensures
        counts_consistent(initial_machine()),
{
}

/// Every tick keeps the counts consistent.
pub proof fn lemma_transition_keeps_counts(
    m: Machine,
    now: u64,
    s: Sense,
    c: MachineConfig,
    right: bool,
)
    requires
        counts_consistent(m),
        step_fits(m, now, c),
    ensures
        counts_consistent(transition(m, now, s, c, right).0),
{
}

/// Counters never go down, and one tick adds at most one to one of them.
pub proof fn lemma_transition_counts_grow_by_at_most_one(
    m: Machine,
    now: u64,
    s: Sense,
    c: MachineConfig,
    right: bool,
)
    requires
        step_fits(m, now, c),
        counts_consistent(m),
    ensures
        ({
            let n = transition(m, now, s, c, right).0.stats;
            &&& m.stats.casts <= n.casts && m.stats.bites <= n.bites
            &&& m.stats.catches <= n.catches && m.stats.misses <= n.misses
            &&& (n.casts - m.stats.casts) + (n.bites - m.stats.bites) + (n.catches
                - m.stats.catches) + (n.misses - m.stats.misses) <= 1
        }),
{
}

/// A strike starts only when the game is focused and the sound passes all three gates:
/// similarity, level and pan.
pub proof fn lemma_strike_needs_all_gates(
    m: Machine,
    now: u64,
    s: Sense,
    c: MachineConfig,
    right: bool,
)
    requires
        m.state != State::Striking,
        transition(m, now, s, c, right).0.state == State::Striking,
    ensures
        s.focused && s.sim_ok && s.level_ok && s.pan_ok,
{
}

/// Nothing is clicked, and the state and the counts stay as they are, while the game
/// is not in the foreground; the right button is released.
pub proof fn lemma_unfocused_is_inert(m: Machine, now: u64, s: Sense, c: MachineConfig, right: bool)
    requires
        !s.focused,
    ensures
        ({
            let (n, acts, down) = transition(m, now, s, c, right);
            &&& n.state == m.state && n.stats == m.stats && n.deadline == m.deadline
            &&& !acts.contains(Action::Click)
            &&& !down
        }),
{
    let acts = transition(m, now, s, c, right).1;
    if acts.contains(Action::Click) {
        let i = choose|i: int| 0 <= i < acts.len() && acts[i] == Action::Click;
        if right {
            assert(acts[i] == Action::ReleaseRight || acts[i] == Action::Notify(
                Notice::GameNotFocused,
            ));
        }
    }
}

/// The right button is held only while waiting for a bite.
pub proof fn lemma_right_held_only_while_waiting(
    m: Machine,
    now: u64,
    s: Sense,
    c: MachineConfig,
    right: bool,
)
    requires
        right ==> m.state == State::WaitingBite,
    ensures
        transition(m, now, s, c, right).2 ==> transition(m, now, s, c, right).0.state
            == State::WaitingBite,
{
}

/// Casting, striking and reeling wait for their deadline: a focused tick before it changes
/// nothing there (state, counts, deadline, right button) and asks for no action. In
/// particular the reeling animation is waited out before the next cast.
pub proof fn lemma_timed_states_wait_for_deadline(
    m: Machine,
    now: u64,
    s: Sense,
    c: MachineConfig,
    right: bool,
)
    requires
        s.focused,
        m.state == State::Casting || m.state == State::Striking || m.state == State::Reeling,
        m.deadline matches Some(d) && now < d,
    ensures
        ({
            let (n, acts, down) = transition(m, now, s, c, right);
            &&& n.state == m.state
            &&& n.stats == m.stats
            &&& n.deadline == m.deadline
            &&& n.anim_skipped == m.anim_skipped
            &&& acts.len() == 0
            &&& down == right
        }),
{
}

/// A round is over (the machine leaves reeling for idle, or casting for the wait) only
/// once its deadline has come.
pub proof fn lemma_leaving_timed_state_needs_deadline(
    m: Machine,
    now: u64,
    s: Sense,
    c: MachineConfig,
    right: bool,
)
    requires
        m.state == State::Casting || m.state == State::Striking || m.state == State::Reeling,
        transition(m, now, s, c, right).0.state != m.state,
    ensures
        m.deadline is None || now >= m.deadline->0,
{
}

/// The round timer is set once, when the wait for a bite begins: a tick that stays in the
/// wait, whatever it heard (rejected sounds included), leaves the deadline as it was.
pub proof fn lemma_wait_keeps_round_deadline(
    m: Machine,
    now: u64,
    s: Sense,
    c: MachineConfig,
    right: bool,
)
    requires
        m.state == State::WaitingBite,
        transition(m, now, s, c, right).0.state == State::WaitingBite,
    ensures
        transition(m, now, s, c, right).0.deadline == m.deadline,
        transition(m, now, s, c, right).0.stats == m.stats,
{
}

/// The wait for a bite ends without a bite (a miss) only when the round deadline has
/// come and no sound matched the template.
pub proof fn lemma_miss_needs_timeout(m: Machine, now: u64, s: Sense, c: MachineConfig, right: bool)
    requires
        m.state == State::WaitingBite,
        transition(m, now, s, c, right).0.state != State::WaitingBite,
        transition(m, now, s, c, right).0.state != State::Striking,
    ensures
        s.focused,
        !s.sim_ok,
        m.deadline is None || now >= m.deadline->0,
{
}

/// With `hold_rmb` set, the right button stays held through the whole wait: a focused tick
/// that does not end the wait (no accepted bite, no timeout) leaves it held and never
/// releases it, rejected sounds included.
pub proof fn lemma_right_held_through_wait(
    m: Machine,
    now: u64,
    s: Sense,
    c: MachineConfig,
    right: bool,
)
    requires
        m.state == State::WaitingBite,
        s.focused,
        c.hold_rmb,
        transition(m, now, s, c, right).0.state == State::WaitingBite,
    ensures
        transition(m, now, s, c, right).2,
        !transition(m, now, s, c, right).1.contains(Action::ReleaseRight),
{
    let acts = transition(m, now, s, c, right).1;
    if acts.contains(Action::ReleaseRight) {
        let i = choose|i: int| 0 <= i < acts.len() && acts[i] == Action::ReleaseRight;
        assert(acts[i] == Action::ReleaseRight);
    }
}

/// A focused tick of an idle machine casts: it clicks once, or twice with `double_cast`,
/// counts one more cast, and starts waiting for the float.
pub proof fn lemma_idle_casts(m: Machine, now: u64, s: Sense, c: MachineConfig, right: bool)
    requires
        m.state == State::Idle,
        s.focused,
        step_fits(m, now, c),
    ensures
        ({
            let (n, acts, down) = transition(m, now, s, c, right);
            &&& n.state == State::Casting
            &&& n.stats.casts == m.stats.casts + 1
            &&& acts[0] == Action::Click
            &&& c.double_cast ==> acts[1] == Action::Click
            &&& acts.last() == Action::Notify(Notice::Cast { count: n.stats.casts })
            &&& n.deadline matches Some(d) && d >= now
            &&& down == right
        }),
{
}

/// An accepted bite does not click yet: it counts the bite, releases the right button and
/// waits for the strike delay; the strike click comes when striking ends, counting a catch.
pub proof fn lemma_bite_then_strike_click(
    m: Machine,
    now: u64,
    s: Sense,
    c: MachineConfig,
    right: bool,
)
    requires
        step_fits(m, now, c),
    ensures
        m.state == State::WaitingBite && transition(m, now, s, c, right).0.state
            == State::Striking ==> {
            let (n, acts, down) = transition(m, now, s, c, right);
            &&& !down
            &&& !acts.contains(Action::Click)
            &&& n.stats.bites == m.stats.bites + 1
        },
        m.state == State::Striking && transition(m, now, s, c, right).0.state
            == State::Reeling ==> {
            let (n, acts, down) = transition(m, now, s, c, right);
            &&& acts.contains(Action::Click)
            &&& n.stats.catches == m.stats.catches + 1
        },
{
    let (n, acts, down) = transition(m, now, s, c, right);
    if m.state == State::WaitingBite && n.state == State::Striking && acts.contains(
        Action::Click,
    ) {
        let i = choose|i: int| 0 <= i < acts.len() && acts[i] == Action::Click;
        assert(acts[i] == Action::Click);
    }
    if m.state == State::Striking && n.state == State::Reeling {
        assert(acts[0] == Action::Click);
    }
}

/// A tick never stops the machine: it is stopped afterwards only if it was before.
pub proof fn lemma_ticks_never_stop(m: Machine, now: u64, s: Sense, c: MachineConfig, right: bool)
    ensures
        transition(m, now, s, c, right).0.state == State::Stopped ==> m.state == State::Stopped,
{
}

/// Each waiting state carries a deadline: a machine that has one whenever it is casting,
/// waiting for a bite, striking or reeling still has one after a tick.
pub proof fn lemma_waiting_states_have_deadline(
    m: Machine,
    now: u64,
    s: Sense,
    c: MachineConfig,
    right: bool,
)
    requires
        step_fits(m, now, c),
        timed_state_has_deadline(m),
    ensures
        timed_state_has_deadline(transition(m, now, s, c, right).0),
{
}

// ---------------------------------------------------------------------------
// Executable code
// ---------------------------------------------------------------------------

fn gap_passed(last: Option<u64>, now: u64, gap: u64) -> (r: bool)
    ensures
        r == gap_elapsed(last, now, gap),
{
    match last {
        Some(t) => now >= t && now - t >= gap,
        None => true,
    }
}

impl Machine {
    /// The machine as it starts.
    pub fn new() -> (r: Machine)
        ensures
            r == initial_machine(),
    {
        Machine {
            state: State::Idle,
            stats: Stats::default(),
            deadline: None,
            last_unfocused_log: None,
            last_reject_log: None,
            anim_skipped: false,
        }
    }

    /// Back to the start.
    pub fn reset(&mut self)
        ensures
            *final(self) == initial_machine(),
    {
        *self = Machine::new();
    }

    /// No deadline, or it has passed at `now`.
    pub fn deadline_is_due(&self, now: u64) -> (r: bool)
        ensures
            r == deadline_due(*self, now),
    {
        match self.deadline {
            Some(d) => now >= d,
            None => true,
        }
    }

    /// Whether a tick at `now` under `c` keeps every counter and deadline in range, so that
    /// `step` may be called.
    pub fn step_fits_at(&self, now: u64, c: MachineConfig) -> (r: bool)
        ensures
            r == step_fits(*self, now, c),
    {
        self.stats.casts < u64::MAX && self.stats.bites < u64::MAX && self.stats.catches
            < u64::MAX && self.stats.misses < u64::MAX && c.cast_delay <= u64::MAX - now
            && c.round_timeout <= u64::MAX - now && c.strike_delay <= u64::MAX - now
            && c.skip_anim_delay <= u64::MAX - now && c.reel_wait <= u64::MAX - now
            && c.post_skip_wait <= u64::MAX - now
    }

    /// One tick of the machine at time `now`: returns the actions to perform, in order.
    pub fn step(&mut self, now: u64, s: Sense, c: MachineConfig, right: &mut RightHold) -> (r: Vec<
        Action,
    >)
        requires
            step_fits(*old(self), now, c),
        ensures
            ({
                let (m, acts, down) = transition(*old(self), now, s, c, old(right).down);
                &&& *final(self) == m
                &&& r@ == acts
                &&& final(right).down == down
            }),
    {
        let mut acts: Vec<Action> = Vec::new();
        if !s.focused {
            if right.ensure_up() {
                acts.push(Action::ReleaseRight);
            }
            if gap_passed(self.last_unfocused_log, now, UNFOCUSED_LOG_GAP) {
                self.last_unfocused_log = Some(now);
                acts.push(Action::Notify(Notice::GameNotFocused));
            }
            assert(acts@ =~= transition(*old(self), now, s, c, old(right).down).1);
            return acts;
        }
        self.last_unfocused_log = None;
        match self.state {
            State::Idle => {
                acts.push(Action::Click);
                if c.double_cast {
                    acts.push(Action::Click);
                }
                self.stats.casts = self.stats.casts + 1;
                acts.push(Action::Notify(Notice::Cast { count: self.stats.casts }));
                self.state = State::Casting;
                self.deadline = Some(now + c.cast_delay);
            },
            State::Casting => {
                if self.deadline_is_due(now) {
                    self.state = State::WaitingBite;
                    self.deadline = Some(now + c.round_timeout);
                    self.anim_skipped = false;
                    acts.push(Action::ResetPeak);
                    acts.push(Action::Notify(Notice::WaitingForBite));
                }
            },
            State::WaitingBite => {
                if c.hold_rmb {
                    if right.ensure_down() {
                        acts.push(Action::PressRight);
                    }
                } else {
                    if right.ensure_up() {
                        acts.push(Action::ReleaseRight);
                    }
                }
                acts.push(Action::TrackPeak);
                if s.sim_ok {
                    if !s.level_ok || !s.pan_ok {
                        if gap_passed(self.last_reject_log, now, REJECT_LOG_GAP) {
                            self.last_reject_log = Some(now);
                            let notice = if !s.level_ok {
                                if s.level_below_min {
                                    Notice::RejectedDistant
                                } else {
                                    Notice::RejectedLoud
                                }
                            } else {
                                Notice::RejectedOffCenter { left: s.pan_left }
                            };
                            acts.push(Action::Notify(notice));
                        }
                    } else {
                        if right.ensure_up() {
                            acts.push(Action::ReleaseRight);
                        }
                        self.stats.bites = self.stats.bites + 1;
                        acts.push(Action::Notify(Notice::BiteDetected));
                        self.state = State::Striking;
                        self.deadline = Some(now + c.strike_delay);
                    }
                } else if self.deadline_is_due(now) {
                    if right.ensure_up() {
                        acts.push(Action::ReleaseRight);
                    }
                    self.stats.misses = self.stats.misses + 1;
                    acts.push(Action::Notify(Notice::RoundTimedOut { misses: self.stats.misses }));
                    if c.reset_on_timeout {
                        acts.push(Action::Notify(Notice::ForcedReset));
                        acts.push(Action::ResetStance);
                        self.state = State::Idle;
                    } else {
                        acts.push(Action::Click);
                        self.state = State::Reeling;
                        self.anim_skipped = true;
                        self.deadline = Some(now + c.reel_wait);
                    }
                }
            },
            State::Striking => {
                if self.deadline_is_due(now) {
                    acts.push(Action::Click);
                    self.stats.catches = self.stats.catches + 1;
                    acts.push(Action::Notify(Notice::StrikeClicked { catches: self.stats.catches }));
                    self.state = State::Reeling;
                    if c.skip_anim {
                        self.anim_skipped = false;
                        self.deadline = Some(now + c.skip_anim_delay);
                    } else {
                        self.anim_skipped = true;
                        self.deadline = Some(now + c.reel_wait);
                    }
                }
            },
            State::Reeling => {
                if self.deadline_is_due(now) {
                    if c.skip_anim && !self.anim_skipped {
                        self.anim_skipped = true;
                        acts.push(Action::Click);
                        acts.push(Action::Notify(Notice::AnimationSkipped));
                        self.deadline = Some(now + c.post_skip_wait);
                    } else {
                        self.state = State::Idle;
                    }
                }
            },
            State::Stopped => {},
        }
        assert(acts@ =~= transition(*old(self), now, s, c, old(right).down).1);
        acts
    }
}


// ---------------------------------------------------------------------------
// The engine loop
// ---------------------------------------------------------------------------

/// What the engine loop does with the audio capture at the start of a pass.
#[derive(Debug, Clone, Copy, PartialEq, Eq, Structural)]
pub enum CaptureAction {
    /// Running without a capture: open one.
    Start,
    /// Stopped with a capture open: close it, release the right button, reset the machine.
    Stop,
    Keep,
}

/// What the rest of a pass of the engine loop does.
#[derive(Debug, Clone, Copy, PartialEq, Eq, Structural)]
pub enum Pass {
    /// Not running: wait and look again.
    Stopped,
    /// F9 went down: stop running.
    Quit,
    /// F8 went down: pause or resume.
    TogglePause,
    /// Paused: release the right button and wait.
    Paused,
    /// Read the audio and the foreground window, and tick the machine.
    Tick,
}

pub open spec fn capture_plan(running: bool, capturing: bool) -> CaptureAction {
    if running && !capturing {
        CaptureAction::Start
    } else if !running && capturing {
        CaptureAction::Stop
    } else {
        CaptureAction::Keep
    }
}

/// The rest of a pass, and the hot key poller after it. The keys are polled only while
/// running; a key that went down ends the pass.
pub open spec fn pass_plan(running: bool, paused: bool, keys: Hotkeys, f8: bool, f9: bool) -> (
    Pass,
    Hotkeys,
) {
    if !running {
        (Pass::Stopped, keys)
    } else {
        let next = Hotkeys { prev_f8: f8, prev_f9: f9 };
        match hotkey_edge(keys, f8, f9) {
            Hotkey::Quit => (Pass::Quit, next),
            Hotkey::Pause => (Pass::TogglePause, next),
            Hotkey::NoKey => (
                if paused {
                    Pass::Paused
                } else {
                    Pass::Tick
                },
                next,
            ),
        }
    }
}

/// Opens the capture when running starts and closes it when running stops.
pub fn capture_action(running: bool, capturing: bool) -> (r: CaptureAction)
    ensures
        r == capture_plan(running, capturing),
{
    if running && !capturing {
        CaptureAction::Start
    } else if !running && capturing {
        CaptureAction::Stop
    } else {
        CaptureAction::Keep
    }
}

/// Decides the rest of a pass from the running and paused flags read at its start and
/// from whether F8 and F9 are down; polls `keys` only while running.
pub fn next_pass(running: bool, paused: bool, keys: &mut Hotkeys, f8: bool, f9: bool) -> (r: Pass)
    ensures
        (r, *final(keys)) == pass_plan(running, paused, *old(keys), f8, f9),
{
    if !running {
        return Pass::Stopped;
    }
    match keys.poll(f8, f9) {
        Hotkey::Quit => Pass::Quit,
        Hotkey::Pause => Pass::TogglePause,
        Hotkey::NoKey => if paused {
            Pass::Paused
        } else {
            Pass::Tick
        },
    }
}

/// The machine ticks only while running and not paused, and only in a pass where no hot
/// key went down.
pub proof fn lemma_tick_only_when_running_unpaused(
    running: bool,
    paused: bool,
    keys: Hotkeys,
    f8: bool,
    f9: bool,
)
    ensures
        pass_plan(running, paused, keys, f8, f9).0 == Pass::Tick ==> running && !paused
            && hotkey_edge(keys, f8, f9) == Hotkey::NoKey,
{
}

/// F8 going down while running (and F9 not) always pauses or resumes, whether the run is
/// paused or not: a paused run can be resumed with F8.
pub proof fn lemma_f8_toggles_pause(paused: bool, keys: Hotkeys, f8: bool, f9: bool)
    requires
        f8 && !keys.prev_f8,
        !(f9 && !keys.prev_f9),
    ensures
        pass_plan(true, paused, keys, f8, f9).0 == Pass::TogglePause,
{
}

/// While running, a pass polls the keys: the poller afterwards holds the keys seen, and
/// the pass is paused or ticks only when no key went down.
pub proof fn lemma_pass_polls_while_running(paused: bool, keys: Hotkeys, f8: bool, f9: bool)
    ensures
        pass_plan(true, paused, keys, f8, f9).1 == (Hotkeys { prev_f8: f8, prev_f9: f9 }),
        (f8 && !keys.prev_f8) || (f9 && !keys.prev_f9) ==> pass_plan(true, paused, keys, f8, f9).0
            != Pass::Paused && pass_plan(true, paused, keys, f8, f9).0 != Pass::Tick,
        !(f8 && !keys.prev_f8) && !(f9 && !keys.prev_f9) ==> pass_plan(true, paused, keys, f8, f9).0
            == (if paused {
            Pass::Paused
        } else {
            Pass::Tick
        }),
{
}

/// A pass that is not running only waits: it does not poll the keys.
pub proof fn lemma_stopped_pass_waits(paused: bool, keys: Hotkeys, f8: bool, f9: bool)
    ensures
        pass_plan(false, paused, keys, f8, f9) == (Pass::Stopped, keys),
{
}

/// F9 going down while running always ends the run, whatever F8 does and whether paused.
pub proof fn lemma_f9_quits(paused: bool, keys: Hotkeys, f8: bool)
    requires
        !keys.prev_f9,
    ensures
        pass_plan(true, paused, keys, f8, true).0 == Pass::Quit,
{
}

/// The capture is open exactly while running: after the capture step of a pass, whether
/// a capture is open (when opening succeeds) agrees with the running flag.
pub proof fn lemma_capture_follows_running(running: bool, capturing: bool)
    ensures
        ({
            let after = match capture_plan(running, capturing) {
                CaptureAction::Start => true,
                CaptureAction::Stop => false,
                CaptureAction::Keep => capturing,
            };
            after == running
        }),
{
}

} // verus!
