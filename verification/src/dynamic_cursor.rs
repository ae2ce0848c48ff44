//! Discrete decisions of the dynamic cursor simulation (rotate, tilt,
//! stretch and shake-to-find): which mode update runs, how long sample
//! windows are, which samples expire, and when the shown transform snaps.
//! The geometry itself works on floating-point values and is not here.

use vstd::prelude::*;
use crate::config::{DynamicCursorConfig, DynamicCursorMode};

verus! {

/// Window of position samples kept for the tilt/stretch speed, at most.
pub const MODE_SAMPLE_WINDOW_MS: u64 = 1_000;
/// Window of position samples kept for shake detection.
pub const SHAKE_SAMPLE_WINDOW_MS: u64 = 1_000;
/// Consecutive ticks without a visible change after which the shown
/// transform snaps to the computed one.
pub const SNAP_AFTER_STALLED_TICKS: u32 = 30;

/// What triggered a simulation step.
#[derive(Clone, Copy, Debug, PartialEq, Eq, Structural)]
pub enum UpdateKind {
    Move,
    Tick,
}

/// The mode update a step performs.
#[derive(Clone, Copy, Debug, PartialEq, Eq, Structural)]
pub enum ModeUpdate {
    Rotate,
    Tilt,
    Stretch,
    Nothing,
}

/// The mode the simulation runs: the configured one when enabled.
pub fn effective_mode(cfg: &DynamicCursorConfig) -> (m: DynamicCursorMode)
    ensures
        m == (if cfg.enabled { cfg.mode } else { DynamicCursorMode::Off }),
{
    if cfg.enabled { cfg.mode } else { DynamicCursorMode::Off }
}

/// Rotation follows motion events; tilt and stretch are sampled per tick.
pub fn mode_update_for(mode: DynamicCursorMode, kind: UpdateKind) -> (u: ModeUpdate)
    ensures
        u == match (mode, kind) {
            (DynamicCursorMode::Rotate, UpdateKind::Move) => ModeUpdate::Rotate,
            (DynamicCursorMode::Tilt, UpdateKind::Tick) => ModeUpdate::Tilt,
            (DynamicCursorMode::Stretch, UpdateKind::Tick) => ModeUpdate::Stretch,
            _ => ModeUpdate::Nothing,
        },
{
    match (mode, kind) {
        (DynamicCursorMode::Rotate, UpdateKind::Move) => ModeUpdate::Rotate,
        (DynamicCursorMode::Tilt, UpdateKind::Tick) => ModeUpdate::Tilt,
        (DynamicCursorMode::Stretch, UpdateKind::Tick) => ModeUpdate::Stretch,
        _ => ModeUpdate::Nothing,
    }
}

/// History kept for the tilt/stretch speed: the configured window, within
/// 16..=1000 ms.
pub fn mode_sample_window(window_ms: u64) -> (w: u64)
    ensures
        w == (if window_ms < 16 {
            16
        } else if window_ms > MODE_SAMPLE_WINDOW_MS {
            MODE_SAMPLE_WINDOW_MS
        } else {
            window_ms
        }),
{
    if window_ms < 16 {
        16
    } else if window_ms > MODE_SAMPLE_WINDOW_MS {
        MODE_SAMPLE_WINDOW_MS
    } else {
        window_ms
    }
}

/// How many of the oldest samples expire: samples are dropped from the
/// front while they are at least `window_ms` old, but two samples always
/// stay so a speed can be computed. `ages_ms` holds the age of each
/// sample, oldest first.
pub open spec fn stale_count(ages_ms: Seq<u64>, window_ms: u64) -> int
    decreases ages_ms.len(),
{
    if ages_ms.len() > 2 && ages_ms[0] >= window_ms {
        1 + stale_count(ages_ms.drop_first(), window_ms)
    } else {
        0
    }
}

proof fn lemma_stale_count_bound(ages_ms: Seq<u64>, window_ms: u64)
    ensures
        0 <= stale_count(ages_ms, window_ms),
        ages_ms.len() <= 2 ==> stale_count(ages_ms, window_ms) == 0,
        ages_ms.len() > 2 ==> stale_count(ages_ms, window_ms) <= ages_ms.len() - 2,
    decreases ages_ms.len(),
{
    if ages_ms.len() > 2 && ages_ms[0] >= window_ms {
        lemma_stale_count_bound(ages_ms.drop_first(), window_ms);
    }
}

/// Only samples at least `window_ms` old expire, oldest first, and they
/// all do until two samples are left: the first `n` samples are all
/// expired, at least two stay, and the first one kept is younger than the
/// window unless only two are left.
pub proof fn lemma_stale_samples(ages_ms: Seq<u64>, window_ms: u64)
    ensures
        ({
            let n = stale_count(ages_ms, window_ms);
            &&& 0 <= n
            &&& ages_ms.len() <= 2 ==> n == 0
            &&& ages_ms.len() > 2 ==> n <= ages_ms.len() - 2
            &&& forall|i: int| 0 <= i < n ==> #[trigger] ages_ms[i] >= window_ms
            &&& ages_ms.len() - n > 2 ==> ages_ms[n] < window_ms
        }),
    decreases ages_ms.len(),
{
    lemma_stale_count_bound(ages_ms, window_ms);
    if ages_ms.len() > 2 && ages_ms[0] >= window_ms {
        let rest = ages_ms.drop_first();
        lemma_stale_samples(rest, window_ms);
        let n = stale_count(ages_ms, window_ms);
        assert forall|i: int| 0 <= i < n implies #[trigger] ages_ms[i] >= window_ms by {
            if i > 0 {
                assert(ages_ms[i] == rest[i - 1]);
            }
        }
        if ages_ms.len() - n > 2 {
            assert(ages_ms[n] == rest[n - 1]);
        }
    }
}

pub fn stale_sample_count(ages_ms: &[u64], window_ms: u64) -> (n: usize)
    ensures
        n == stale_count(ages_ms@, window_ms),
        ages_ms.len() > 2 ==> n <= ages_ms.len() - 2,
        ages_ms.len() <= 2 ==> n == 0,
{
    proof {
        lemma_stale_count_bound(ages_ms@, window_ms);
    }
    let mut n: usize = 0;
    assert(ages_ms@.skip(0) =~= ages_ms@);
    while ages_ms.len() - n > 2 && ages_ms[n] >= window_ms
        invariant
            n <= ages_ms.len(),
            stale_count(ages_ms@, window_ms) == n + stale_count(ages_ms@.skip(n as int), window_ms),
        decreases ages_ms.len() - n,
    {
        assert(ages_ms@.skip(n as int).drop_first() =~= ages_ms@.skip(n + 1));
        n = n + 1;
    }
    n
}

/// Outcome of comparing the shown transform with the freshly computed one.
#[derive(Clone, Copy, Debug, PartialEq, Eq, Structural)]
pub struct ShownUpdate {
    /// Replace the shown transform by the computed one (then clamp it).
    pub adopt: bool,
    /// Consecutive ticks without a visible change.
    pub stalled_ticks: u32,
}

/// A visible difference adopts the new transform at once; otherwise, while
/// either transform is not the identity, stalled ticks are counted and the
/// transform is adopted on the thirtieth, so decay always converges.
pub open spec fn shown_update_spec(differs: bool, both_identity: bool, stalled: u32) -> ShownUpdate {
    if differs {
        ShownUpdate { adopt: true, stalled_ticks: 0 }
    } else if !both_identity {
        if stalled + 1 >= SNAP_AFTER_STALLED_TICKS {
            ShownUpdate { adopt: true, stalled_ticks: 0 }
        } else {
            ShownUpdate { adopt: false, stalled_ticks: (stalled + 1) as u32 }
        }
    } else {
        ShownUpdate { adopt: false, stalled_ticks: stalled }
    }
}

pub fn shown_update(differs: bool, both_identity: bool, stalled: u32) -> (u: ShownUpdate)
    requires
        stalled < SNAP_AFTER_STALLED_TICKS,
    ensures
        u == shown_update_spec(differs, both_identity, stalled),
        u.stalled_ticks < SNAP_AFTER_STALLED_TICKS,
{
    if differs {
        ShownUpdate { adopt: true, stalled_ticks: 0 }
    } else if !both_identity {
        let next = stalled + 1;
        if next >= SNAP_AFTER_STALLED_TICKS {
            ShownUpdate { adopt: true, stalled_ticks: 0 }
        } else {
            ShownUpdate { adopt: false, stalled_ticks: next }
        }
    } else {
        ShownUpdate { adopt: false, stalled_ticks: stalled }
    }
}

/// Whether a run of `n` ticks without a visible change, starting from
/// `stalled` stalled ticks, adopts the computed transform on one of them.
pub open spec fn adopts_within(stalled: u32, n: nat) -> bool
    decreases n,
{
    if n == 0 {
        false
    } else {
        let u = shown_update_spec(false, false, stalled);
        u.adopt || adopts_within(u.stalled_ticks, (n - 1) as nat)
    }
}

/// Decay always converges: from any stall count below the limit, a run of
/// `SNAP_AFTER_STALLED_TICKS - stalled` ticks with no visible change adopts
/// the computed transform, and no shorter run does.
pub proof fn lemma_stall_snaps(stalled: u32)
    requires
        stalled < SNAP_AFTER_STALLED_TICKS,
    ensures
        adopts_within(stalled, (SNAP_AFTER_STALLED_TICKS - stalled) as nat),
        forall|n: nat| n < SNAP_AFTER_STALLED_TICKS - stalled ==> !#[trigger] adopts_within(stalled, n),
    decreases SNAP_AFTER_STALLED_TICKS - stalled,
{
    if stalled + 1 < SNAP_AFTER_STALLED_TICKS {
        lemma_stall_snaps((stalled + 1) as u32);
        assert forall|n: nat| n < SNAP_AFTER_STALLED_TICKS - stalled implies !#[trigger] adopts_within(stalled, n) by {
            if n > 0 {
                assert(!adopts_within((stalled + 1) as u32, (n - 1) as nat));
            }
        }
    } else {
        assert forall|n: nat| n < SNAP_AFTER_STALLED_TICKS - stalled implies !#[trigger] adopts_within(stalled, n) by {
            assert(n == 0);
        }
    }
}

/// Whether pixelated (nearest-neighbour) sampling is used: always for
/// setting 2, while magnified for setting 1, never otherwise.
pub fn nearest_sampling_enabled(nearest: u8, magnified: bool) -> (b: bool)
    ensures
        b == (nearest == 2 || (nearest == 1 && magnified)),
{
    match nearest {
        2 => true,
        1 => magnified,
        _ => false,
    }
}

/// Whether the frame loop must keep redrawing: a shake magnification is
/// animating, or a tick-driven mode (tilt, stretch) still shows a
/// transform that decays. Rotation holds its angle between motion events
/// and does not keep redraws alive.
pub fn animation_active(shake_animating: bool, last_mode: Option<DynamicCursorMode>, shown_is_identity: bool) -> (b: bool)
    ensures
        b == (shake_animating || ((last_mode == Some(DynamicCursorMode::Tilt) || last_mode == Some(
            DynamicCursorMode::Stretch,
        )) && !shown_is_identity)),
{
    if shake_animating {
        return true;
    }
    match last_mode {
        Some(DynamicCursorMode::Tilt) | Some(DynamicCursorMode::Stretch) => !shown_is_identity,
        _ => false,
    }
}

} // verus!
