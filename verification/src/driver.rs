use vstd::prelude::*;
use crate::estimator::{ALPHA_MILLI, CounterSnapshot, EstimatorState, Sample, is_reset,
    update_spec};
use crate::select::{IfaceInfo, Pattern, opt_pat_view, pick_iface, pick_spec};
use crate::text::{opt_bytes_eq, opt_bytes_view};

verus! {

/// Milliseconds between two re-evaluations of the interface selection.
pub const SELECT_PERIOD_MS: u64 = 15000;

/// Milliseconds between two sampling ticks.
pub const TICK_MS: u64 = 1000;

/// The sampling loop's state: the interface under watch, if any, its
/// smoothing state, and the time the selection was last re-evaluated.
pub struct DriverState {
    pub iface: Option<Vec<u8>>,
    pub est: EstimatorState,
    pub last_check_ms: u64,
}

impl DriverState {
    /// Start the loop at `now_ms`: select an interface and begin with empty
    /// smoothing state.
    pub fn init(now_ms: u64, pattern: Option<&Pattern>, infos: &Vec<IfaceInfo>, route: &[u8]) -> (r:
        DriverState)
        ensures
            opt_bytes_view(r.iface) == pick_spec(opt_pat_view(pattern), infos@, route@),
            is_reset(r.est),
            r.last_check_ms == now_ms,
    {
        DriverState {
            iface: pick_iface(pattern, infos, route),
            est: EstimatorState::new(),
            last_check_ms: now_ms,
        }
    }

    /// Whether the periodic re-selection is due at `now_ms`.
    pub fn selection_due(&self, now_ms: u64) -> (r: bool)
        ensures
            r == (now_ms - self.last_check_ms >= SELECT_PERIOD_MS),
    {
        now_ms >= self.last_check_ms && now_ms - self.last_check_ms >= SELECT_PERIOD_MS
    }

    /// Re-evaluate the selection at `now_ms`: a changed result — including a
    /// change between some interface and none — replaces the watched
    /// interface and clears the smoothing state, while an unchanged result
    /// leaves the smoothing state alone; either way the re-selection clock
    /// restarts at `now_ms`.
    pub fn reselect(
        &mut self,
        now_ms: u64,
        pattern: Option<&Pattern>,
        infos: &Vec<IfaceInfo>,
        route: &[u8],
    )
        ensures
            ({
                let new = pick_spec(opt_pat_view(pattern), infos@, route@);
                &&& (if new != opt_bytes_view(old(self).iface) {
                    opt_bytes_view(final(self).iface) == new && is_reset(final(self).est)
                } else {
                    final(self).iface == old(self).iface && final(self).est == old(self).est
                })
                &&& final(self).last_check_ms == now_ms
            }),
    {
        let newi = pick_iface(pattern, infos, route);
        if !opt_bytes_eq(&newi, &self.iface) {
            self.iface = newi;
            self.est = EstimatorState::new();
        }
        self.last_check_ms = now_ms;
    }

    /// Feed the tick's counter reading for the watched interface. A missing
    /// reading means the interface vanished: the watch is dropped and the
    /// smoothing state cleared. A present reading drives the estimator and
    /// may yield a sample. The re-selection clock is not touched.
    pub fn on_reading(&mut self, now_ms: u64, reading: Option<(u64, u64, bool)>) -> (r: Option<
        Sample,
    >)
        requires
            old(self).iface is Some,
        ensures
            final(self).last_check_ms == old(self).last_check_ms,
            match reading {
                None => final(self).iface is None && is_reset(final(self).est) && r is None,
                Some(t) => {
                    let snap = CounterSnapshot {
                        rx_bytes: t.0,
                        tx_bytes: t.1,
                        up: t.2,
                        t_ms: now_ms,
                    };
                    let stepped = update_spec(
                        old(self).est,
                        old(self).iface.unwrap()@,
                        snap,
                        ALPHA_MILLI,
                    );
                    &&& final(self).iface == old(self).iface
                    &&& final(self).est == stepped.0
                    &&& match (r, stepped.1) {
                        (Some(s), Some(v)) => s@ == v,
                        (None, None) => true,
                        _ => false,
                    }
                },
            },
    {
        match reading {
            None => {
                self.iface = None;
                self.est = EstimatorState::new();
                None
            },
            Some((rx, tx, up)) => {
                let snap = CounterSnapshot { rx_bytes: rx, tx_bytes: tx, up: up, t_ms: now_ms };
                self.est.update(self.iface.as_ref().unwrap(), snap, ALPHA_MILLI)
            },
        }
    }

    /// A tick without a watched interface tries selection at once and keeps
    /// the smoothing state empty; the re-selection clock is not touched.
    pub fn on_no_interface(
        &mut self,
        pattern: Option<&Pattern>,
        infos: &Vec<IfaceInfo>,
        route: &[u8],
    )
        requires
            old(self).iface is None,
        ensures
            opt_bytes_view(final(self).iface) == pick_spec(opt_pat_view(pattern), infos@, route@),
            is_reset(final(self).est),
            final(self).last_check_ms == old(self).last_check_ms,
    {
        self.iface = pick_iface(pattern, infos, route);
        self.est = EstimatorState::new();
    }

    /// The name of the interface under watch, if any.
    pub fn current_iface(&self) -> (r: Option<&Vec<u8>>)
        ensures
            match r {
                Some(v) => self.iface == Some(*v),
                None => self.iface is None,
            },
    {
        self.iface.as_ref()
    }
}

} // verus!
