use deltafishing::engine::{
    capture_action, next_pass, Action, CaptureAction, Machine, MachineConfig, Notice, Pass, Sense,
    State, Stats,
};
use deltafishing::input::{Hotkeys, RightHold};

const S: u64 = 1_000_000_000;

fn cfg() -> MachineConfig {
    MachineConfig {
        hold_rmb: true,
        reset_on_timeout: true,
        skip_anim: true,
        double_cast: true,
        cast_delay: 4 * S,
        round_timeout: 20 * S,
        strike_delay: S / 5,
        skip_anim_delay: S,
        reel_wait: 8 * S,
        post_skip_wait: 2 * S,
    }
}

fn quiet() -> Sense {
    Sense { focused: true, sim_ok: false, level_ok: false, level_below_min: false, pan_ok: false, pan_left: false }
}

fn bite() -> Sense {
    Sense { focused: true, sim_ok: true, level_ok: true, level_below_min: false, pan_ok: true, pan_left: false }
}

#[test]
fn state_labels() {
    assert_eq!(State::Stopped.label(), "已停止");
    assert_eq!(State::Idle.label(), "等待抛竿");
    assert_eq!(State::Casting.label(), "抛竿等待");
    assert_eq!(State::WaitingBite.label(), "等待咬钩");
    assert_eq!(State::Striking.label(), "刺鱼");
    assert_eq!(State::Reeling.label(), "收竿动画");
}

#[test]
fn full_round_with_catch_and_skipped_animation() {
    let mut m = Machine::new();
    let mut r = RightHold::default();
    let c = cfg();
    let a = m.step(0, quiet(), c, &mut r);
    assert_eq!(a, vec![Action::Click, Action::Click, Action::Notify(Notice::Cast { count: 1 })]);
    assert_eq!(m.state, State::Casting);
    assert_eq!(m.deadline, Some(4 * S));
    // not due yet
    assert_eq!(m.step(S, quiet(), c, &mut r), vec![]);
    let a = m.step(4 * S, quiet(), c, &mut r);
    assert_eq!(a, vec![Action::ResetPeak, Action::Notify(Notice::WaitingForBite)]);
    assert_eq!(m.state, State::WaitingBite);
    assert_eq!(m.deadline, Some(24 * S));
    let a = m.step(5 * S, quiet(), c, &mut r);
    assert_eq!(a, vec![Action::PressRight, Action::TrackPeak]);
    assert!(r.down);
    let a = m.step(6 * S, bite(), c, &mut r);
    assert_eq!(a, vec![Action::TrackPeak, Action::ReleaseRight, Action::Notify(Notice::BiteDetected)]);
    assert!(!r.down);
    assert_eq!(m.state, State::Striking);
    assert_eq!(m.stats.bites, 1);
    let a = m.step(6 * S + S / 5, quiet(), c, &mut r);
    assert_eq!(a, vec![Action::Click, Action::Notify(Notice::StrikeClicked { catches: 1 })]);
    assert_eq!(m.state, State::Reeling);
    assert!(!m.anim_skipped);
    let a = m.step(8 * S, quiet(), c, &mut r);
    assert_eq!(a, vec![Action::Click, Action::Notify(Notice::AnimationSkipped)]);
    assert_eq!(m.deadline, Some(10 * S));
    assert_eq!(m.step(10 * S, quiet(), c, &mut r), vec![]);
    assert_eq!(m.state, State::Idle);
    assert_eq!(m.stats, Stats { casts: 1, bites: 1, catches: 1, misses: 0 });
}

#[test]
fn rejected_bites_are_logged_with_cooldown() {
    let mut m = Machine::new();
    let mut r = RightHold::default();
    let mut c = cfg();
    c.hold_rmb = false;
    c.double_cast = false;
    m.step(0, quiet(), c, &mut r);
    m.step(4 * S, quiet(), c, &mut r);
    let far = Sense { level_ok: false, level_below_min: true, ..bite() };
    let loud = Sense { level_ok: false, level_below_min: false, ..bite() };
    let side = Sense { pan_ok: false, pan_left: true, ..bite() };
    assert_eq!(m.step(5 * S, far, c, &mut r), vec![Action::TrackPeak, Action::Notify(Notice::RejectedDistant)]);
    // within 800 ms: no message
    assert_eq!(m.step(5 * S + 500_000_000, loud, c, &mut r), vec![Action::TrackPeak]);
    assert_eq!(m.step(5 * S + 800_000_000, loud, c, &mut r), vec![Action::TrackPeak, Action::Notify(Notice::RejectedLoud)]);
    assert_eq!(
        m.step(7 * S, side, c, &mut r),
        vec![Action::TrackPeak, Action::Notify(Notice::RejectedOffCenter { left: true })]
    );
    assert_eq!(m.state, State::WaitingBite);
    assert_eq!(m.stats.bites, 0);
}

#[test]
fn timeout_resets_stance_or_reels() {
    let mut m = Machine::new();
    let mut r = RightHold::default();
    let c = cfg();
    m.step(0, quiet(), c, &mut r);
    m.step(4 * S, quiet(), c, &mut r);
    m.step(5 * S, quiet(), c, &mut r);
    assert!(r.down);
    let a = m.step(24 * S, quiet(), c, &mut r);
    assert_eq!(
        a,
        vec![
            Action::TrackPeak,
            Action::ReleaseRight,
            Action::Notify(Notice::RoundTimedOut { misses: 1 }),
            Action::Notify(Notice::ForcedReset),
            Action::ResetStance,
        ]
    );
    assert_eq!(m.state, State::Idle);

    let mut c2 = cfg();
    c2.reset_on_timeout = false;
    m.step(30 * S, quiet(), c2, &mut r);
    m.step(34 * S, quiet(), c2, &mut r);
    let a = m.step(54 * S, quiet(), c2, &mut r);
    assert_eq!(
        a,
        vec![
            Action::PressRight,
            Action::TrackPeak,
            Action::ReleaseRight,
            Action::Notify(Notice::RoundTimedOut { misses: 2 }),
            Action::Click,
        ]
    );
    assert_eq!(m.state, State::Reeling);
    assert!(m.anim_skipped);
    assert_eq!(m.deadline, Some(62 * S));
    assert_eq!(m.step(62 * S, quiet(), c2, &mut r), vec![]);
    assert_eq!(m.state, State::Idle);
    assert_eq!(m.stats, Stats { casts: 2, bites: 0, catches: 0, misses: 2 });
}

#[test]
fn unfocused_game_pauses_and_logs_every_three_seconds() {
    let mut m = Machine::new();
    let mut r = RightHold { down: true };
    let c = cfg();
    let away = Sense { focused: false, ..bite() };
    assert_eq!(m.step(0, away, c, &mut r), vec![Action::ReleaseRight, Action::Notify(Notice::GameNotFocused)]);
    assert_eq!(m.step(2 * S, away, c, &mut r), vec![]);
    assert_eq!(m.step(3 * S, away, c, &mut r), vec![Action::Notify(Notice::GameNotFocused)]);
    assert_eq!(m.state, State::Idle);
    assert_eq!(m.stats, Stats::default());
    // coming back clears the cooldown
    m.step(4 * S, quiet(), c, &mut r);
    assert_eq!(m.last_unfocused_log, None);
    assert_eq!(m.step(4 * S + 1, away, c, &mut r), vec![Action::Notify(Notice::GameNotFocused)]);
}

#[test]
fn strike_without_skipping_animation_waits_reel_time() {
    let mut m = Machine::new();
    let mut r = RightHold::default();
    let mut c = cfg();
    c.skip_anim = false;
    m.step(0, quiet(), c, &mut r);
    m.step(4 * S, quiet(), c, &mut r);
    m.step(5 * S, bite(), c, &mut r);
    let a = m.step(6 * S, quiet(), c, &mut r);
    assert_eq!(a, vec![Action::Click, Action::Notify(Notice::StrikeClicked { catches: 1 })]);
    assert!(m.anim_skipped);
    assert_eq!(m.deadline, Some(14 * S));
    assert_eq!(m.step(14 * S, quiet(), c, &mut r), vec![]);
    assert_eq!(m.state, State::Idle);
}

#[test]
fn reset_and_deadline() {
    let mut m = Machine::new();
    assert!(m.deadline_is_due(0));
    let mut r = RightHold::default();
    m.step(100, quiet(), cfg(), &mut r);
    assert!(!m.deadline_is_due(100));
    assert!(m.deadline_is_due(100 + 4 * S));
    m.reset();
    assert_eq!(m, Machine::new());
    let mut s = Machine::new();
    s.state = State::Stopped;
    assert_eq!(s.step(0, quiet(), cfg(), &mut r), vec![]);
    assert_eq!(s.state, State::Stopped);
}

#[test]
fn ticks_keep_counts_deadlines_and_never_stop() {
    let mut m = Machine::new();
    let mut r = RightHold::default();
    let mut c = cfg();
    let senses = [quiet(), bite(), quiet(), bite(), quiet()];
    let mut now = 0;
    for round in 0..40u64 {
        c.reset_on_timeout = round % 3 == 0;
        c.skip_anim = round % 2 == 0;
        let s = senses[(round as usize) % senses.len()];
        m.step(now, s, c, &mut r);
        assert_ne!(m.state, State::Stopped);
        let st = m.stats;
        match m.state {
            State::Casting | State::WaitingBite => {
                assert!(m.deadline.is_some());
                assert_eq!(st.bites + st.misses + 1, st.casts);
                assert_eq!(st.catches, st.bites);
            }
            State::Striking => {
                assert!(m.deadline.is_some());
                assert_eq!(st.bites + st.misses, st.casts);
                assert_eq!(st.catches + 1, st.bites);
            }
            State::Reeling => {
                assert!(m.deadline.is_some());
                assert_eq!(st.bites + st.misses, st.casts);
                assert_eq!(st.catches, st.bites);
            }
            _ => {
                assert_eq!(st.bites + st.misses, st.casts);
                assert_eq!(st.catches, st.bites);
            }
        }
        now += 7 * S;
    }
    assert!(m.stats.casts > 1);
    assert!(m.stats.catches > 0);
}

#[test]
fn loop_passes_follow_flags_and_keys() {
    assert_eq!(capture_action(true, false), CaptureAction::Start);
    assert_eq!(capture_action(false, true), CaptureAction::Stop);
    assert_eq!(capture_action(true, true), CaptureAction::Keep);
    assert_eq!(capture_action(false, false), CaptureAction::Keep);

    let mut k = Hotkeys::default();
    // stopped: keys are not polled
    assert_eq!(next_pass(false, false, &mut k, true, true), Pass::Stopped);
    assert_eq!(k, Hotkeys::default());
    assert_eq!(next_pass(true, false, &mut k, false, false), Pass::Tick);
    assert_eq!(next_pass(true, true, &mut k, false, false), Pass::Paused);
    assert_eq!(next_pass(true, false, &mut k, true, false), Pass::TogglePause);
    assert_eq!(next_pass(true, false, &mut k, true, false), Pass::Tick);
    assert_eq!(next_pass(true, true, &mut k, true, true), Pass::Quit);
    assert_eq!(k, Hotkeys { prev_f8: true, prev_f9: true });
}

#[test]
fn step_fits_checks_counters_and_deadlines() {
    let m = Machine::new();
    assert!(m.step_fits_at(0, cfg()));
    assert!(!m.step_fits_at(u64::MAX - S, cfg()));
    let mut full = Machine::new();
    full.stats.misses = u64::MAX;
    assert!(!full.step_fits_at(0, cfg()));
}
