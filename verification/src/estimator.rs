use vstd::prelude::*;
use crate::text::{clone_bytes, parse_u64_bytes, parse_u64_spec};
use crate::select::{iface_is_up, is_up_spec};

verus! {

/// Smoothing weight of the newest instantaneous rate, in thousandths.
pub const ALPHA_MILLI: u64 = 350;

/// One cumulative reading of an interface's byte counters, with the
/// operational flag and the time of the reading in milliseconds.
#[derive(Clone, Copy, PartialEq, Eq, Debug)]
pub struct CounterSnapshot {
    pub rx_bytes: u64,
    pub tx_bytes: u64,
    pub up: bool,
    pub t_ms: u64,
}

/// Per-selection smoothing state: the previous reading, if any, and the
/// exponential moving averages of both directions in micro-KiB/s.
#[derive(Clone, Copy, PartialEq, Eq, Debug)]
pub struct EstimatorState {
    pub prev: Option<CounterSnapshot>,
    pub ema_rx_micro: u64,
    pub ema_tx_micro: u64,
}

/// One emitted rate record; rates are KiB/s in millionths.
#[derive(Clone, PartialEq, Eq, Debug)]
pub struct Sample {
    pub iface: Vec<u8>,
    pub rx_kib_s_micro: u64,
    pub tx_kib_s_micro: u64,
    pub up: bool,
}

/// Mathematical image of a `Sample`.
pub ghost struct SampleV {
    pub iface: Seq<u8>,
    pub rx_kib_s_micro: u64,
    pub tx_kib_s_micro: u64,
    pub up: bool,
}

impl View for Sample {
    type V = SampleV;

    open spec fn view(&self) -> SampleV {
        SampleV {
            iface: self.iface@,
            rx_kib_s_micro: self.rx_kib_s_micro,
            tx_kib_s_micro: self.tx_kib_s_micro,
            up: self.up,
        }
    }
}

/// A cumulative counter delta: the increase from `prev` to `cur`, where a
/// regression (`cur < prev`, e.g. a counter reset) counts as zero.
pub open spec fn delta_spec(prev: u64, cur: u64) -> u64 {
    if cur >= prev {
        (cur - prev) as u64
    } else {
        0
    }
}

/// The effective time step in milliseconds: the elapsed time, floored at one
/// millisecond so that a rate is never divided by zero or inflated by clock
/// jitter.
pub open spec fn eff_dt_spec(prev_t: u64, now_t: u64) -> u64 {
    if now_t > prev_t {
        (now_t - prev_t) as u64
    } else {
        1
    }
}

/// Instantaneous rate in micro-KiB/s: `delta` bytes over `dt_ms`
/// milliseconds is `delta * 10^9 / (1024 * dt_ms)` micro-KiB/s, saturated
/// at the largest representable value.
pub open spec fn inst_rate_spec(delta: u64, dt_ms: u64) -> u64
    recommends
        dt_ms >= 1,
{
    let q = delta * 1_000_000_000 / (1024 * dt_ms);
    if q > u64::MAX {
        u64::MAX
    } else {
        q as u64
    }
}

/// One step of the exponential moving average, with the weight of the new
/// value given in thousandths: `(alpha * inst + (1000 - alpha) * prev) / 1000`.
pub open spec fn ema_step_spec(alpha_milli: u64, inst: u64, prev_ema: u64) -> u64
    recommends
        alpha_milli <= 1000,
{
    ((alpha_milli * inst + (1000 - alpha_milli) * prev_ema) / 1000) as u64
}

/// What one estimator update does: seed the previous reading on the first
/// call, afterwards advance both averages and emit a record.
pub open spec fn update_spec(
    st: EstimatorState,
    iface: Seq<u8>,
    snap: CounterSnapshot,
    alpha_milli: u64,
) -> (EstimatorState, Option<SampleV>) {
    match st.prev {
        None => (
            EstimatorState {
                prev: Some(snap),
                ema_rx_micro: st.ema_rx_micro,
                ema_tx_micro: st.ema_tx_micro,
            },
            None,
        ),
        Some(p) => {
            let dt = eff_dt_spec(p.t_ms, snap.t_ms);
            let erx = ema_step_spec(
                alpha_milli,
                inst_rate_spec(delta_spec(p.rx_bytes, snap.rx_bytes), dt),
                st.ema_rx_micro,
            );
            let etx = ema_step_spec(
                alpha_milli,
                inst_rate_spec(delta_spec(p.tx_bytes, snap.tx_bytes), dt),
                st.ema_tx_micro,
            );
            (
                EstimatorState { prev: Some(snap), ema_rx_micro: erx, ema_tx_micro: etx },
                Some(
                    SampleV {
                        iface: iface,
                        rx_kib_s_micro: erx,
                        tx_kib_s_micro: etx,
                        up: snap.up,
                    },
                ),
            )
        },
    }
}

/// Empty smoothing state: no previous reading, both averages zero.
pub open spec fn is_reset(st: EstimatorState) -> bool {
    st.prev is None && st.ema_rx_micro == 0 && st.ema_tx_micro == 0
}

/// Saturating subtraction of cumulative counters: never negative, and zero
/// whenever the current reading is below the previous one.
pub fn counter_delta(prev: u64, cur: u64) -> (r: u64)
    ensures
        r == delta_spec(prev, cur),
{
    if cur >= prev {
        cur - prev
    } else {
        0
    }
}

/// The elapsed milliseconds, floored at one.
pub fn effective_dt_ms(prev_t: u64, now_t: u64) -> (r: u64)
    ensures
        r == eff_dt_spec(prev_t, now_t),
        r >= 1,
{
    if now_t > prev_t {
        now_t - prev_t
    } else {
        1
    }
}

/// Instantaneous rate in micro-KiB/s of `delta` bytes over `dt_ms`
/// milliseconds.
pub fn inst_rate(delta: u64, dt_ms: u64) -> (r: u64)
    requires
        dt_ms >= 1,
    ensures
        r == inst_rate_spec(delta, dt_ms),
{
    let num: u128 = (delta as u128) * 1_000_000_000;
    let den: u128 = 1024 * (dt_ms as u128);
    let q: u128 = num / den;
    if q > u64::MAX as u128 {
        u64::MAX
    } else {
        q as u64
    }
}

/// One exponential-moving-average step in micro-KiB/s.
pub fn ema_step(alpha_milli: u64, inst: u64, prev_ema: u64) -> (r: u64)
    requires
        alpha_milli <= 1000,
    ensures
        r == ema_step_spec(alpha_milli, inst, prev_ema),
{
    proof {
        assert((alpha_milli as int) * (inst as int) <= (alpha_milli as int) * (u64::MAX as int))
            by (nonlinear_arith)
            requires
                inst <= u64::MAX,
                alpha_milli >= 0,
        ;
        assert(((1000 - alpha_milli) as int) * (prev_ema as int) <= ((1000 - alpha_milli) as int)
            * (u64::MAX as int))
            by (nonlinear_arith)
            requires
                prev_ema <= u64::MAX,
                alpha_milli <= 1000,
        ;
    }
    let num: u128 = (alpha_milli as u128) * (inst as u128) + ((1000 - alpha_milli) as u128) * (
    prev_ema as u128);
    proof {
        assert(num <= 1000 * (u64::MAX as int));
        assert(num / 1000 <= u64::MAX as int);
    }
    let q: u128 = num / 1000;
    q as u64
}

impl EstimatorState {
    /// Empty smoothing state.
    pub fn new() -> (r: EstimatorState)
        ensures
            is_reset(r),
    {
        EstimatorState { prev: None, ema_rx_micro: 0, ema_tx_micro: 0 }
    }

    /// Feed one counter reading: the first reading after a reset only seeds
    /// the previous snapshot; every later reading advances both averages and
    /// yields a record for `iface`.
    pub fn update(&mut self, iface: &Vec<u8>, snap: CounterSnapshot, alpha_milli: u64) -> (r:
        Option<Sample>)
        requires
            alpha_milli <= 1000,
        ensures
            *final(self) == update_spec(*old(self), iface@, snap, alpha_milli).0,
            match (r, update_spec(*old(self), iface@, snap, alpha_milli).1) {
                (Some(s), Some(v)) => s@ == v,
                (None, None) => true,
                _ => false,
            },
    {
        match self.prev {
            None => {
                self.prev = Some(snap);
                None
            },
            Some(p) => {
                let dt = effective_dt_ms(p.t_ms, snap.t_ms);
                let irx = inst_rate(counter_delta(p.rx_bytes, snap.rx_bytes), dt);
                let itx = inst_rate(counter_delta(p.tx_bytes, snap.tx_bytes), dt);
                let erx = ema_step(alpha_milli, irx, self.ema_rx_micro);
                let etx = ema_step(alpha_milli, itx, self.ema_tx_micro);
                self.prev = Some(snap);
                self.ema_rx_micro = erx;
                self.ema_tx_micro = etx;
                Some(
                    Sample {
                        iface: clone_bytes(iface),
                        rx_kib_s_micro: erx,
                        tx_kib_s_micro: etx,
                        up: snap.up,
                    },
                )
            },
        }
    }
}

/// Turn the raw texts of the two counter files and the operational-state
/// and carrier files into one reading: both counters must parse as decimal
/// numbers, and the interface counts as operational by the one up-rule —
/// trimmed state `up`, or trimmed state `unknown` with trimmed carrier `1`.
pub fn parse_counters(rx_raw: &[u8], tx_raw: &[u8], op_raw: &[u8], car_raw: &[u8]) -> (r: Option<
    (u64, u64, bool),
>)
    ensures
        match (parse_u64_spec(rx_raw@), parse_u64_spec(tx_raw@)) {
            (Some(rx), Some(tx)) => r == Some((rx, tx, is_up_spec(op_raw@, car_raw@))),
            _ => r is None,
        },
{
    let rx = parse_u64_bytes(rx_raw);
    let tx = parse_u64_bytes(tx_raw);
    match (rx, tx) {
        (Some(rx), Some(tx)) => Some((rx, tx, iface_is_up(op_raw, car_raw))),
        _ => None,
    }
}

/// A counter regression — the current reading below the previous one —
/// always yields a delta of exactly zero, never a negative value.
pub proof fn lemma_regression_gives_zero_delta(prev: u64, cur: u64)
    requires
        cur < prev,
    ensures
        delta_spec(prev, cur) == 0,
{
}

/// The effective divisor of a rate is the elapsed time floored at one
/// millisecond: it is exactly `max(now - prev, 1)` and in particular never
/// zero, for every pair of timestamps.
pub proof fn lemma_effective_dt_is_floored_max(prev_t: u64, now_t: u64)
    ensures
        eff_dt_spec(prev_t, now_t) >= 1,
        eff_dt_spec(prev_t, now_t) == vstd::math::max(now_t - prev_t, 1),
{
}

/// The first reading after a reset never yields a record, and the reading
/// after it always does.
pub proof fn lemma_seed_then_emit(
    st: EstimatorState,
    iface: Seq<u8>,
    s1: CounterSnapshot,
    s2: CounterSnapshot,
    alpha_milli: u64,
)
    requires
        st.prev is None,
    ensures
        update_spec(st, iface, s1, alpha_milli).1 is None,
        update_spec(update_spec(st, iface, s1, alpha_milli).0, iface, s2, alpha_milli).1 is Some,
{
}

/// A record emitted right after a reset is a function of the two readings
/// taken since the reset alone: no byte count or average from before the
/// reset enters it.
pub proof fn lemma_reset_isolates_history(
    st: EstimatorState,
    iface: Seq<u8>,
    s1: CounterSnapshot,
    s2: CounterSnapshot,
    alpha_milli: u64,
)
    requires
        is_reset(st),
    ensures
        ({
            let seeded = update_spec(st, iface, s1, alpha_milli).0;
            let dt = eff_dt_spec(s1.t_ms, s2.t_ms);
            update_spec(seeded, iface, s2, alpha_milli).1 == Some(
                SampleV {
                    iface: iface,
                    rx_kib_s_micro: ema_step_spec(
                        alpha_milli,
                        inst_rate_spec(delta_spec(s1.rx_bytes, s2.rx_bytes), dt),
                        0,
                    ),
                    tx_kib_s_micro: ema_step_spec(
                        alpha_milli,
                        inst_rate_spec(delta_spec(s1.tx_bytes, s2.tx_bytes), dt),
                        0,
                    ),
                    up: s2.up,
                },
            )
        }),
{
}

} // verus!
