//! The wire-collapse detector. It sees only time that the reorder stage spent
//! ready to receive, so a slow scan can never trip it. Two things fire it: no
//! arrival at all for a while, and a rolling window that falls far below the best
//! one of the pass and below a usable rate (or below a rate that is never usable).
use crate::error::{SlipstreamError, WireRate, CENTI_MIB_PER_KILOSECOND};
use crate::fetch::plan::WireFailoverArm;
use vstd::prelude::*;

verus! {

/// The rolling window, in nanoseconds: ten seconds.
pub const DETECT_WINDOW_NANOS: u64 = 10_000_000_000;

/// Nothing fires before this much time has passed: fifteen seconds ...
pub const DETECT_WARMUP_NANOS: u64 = 15_000_000_000;

/// ... and this much has arrived: four MiB.
pub const DETECT_WARMUP_BYTES: u64 = 4_194_304;

/// The detector as a model.
pub struct DetectorModel {
    pub arm: WireFailoverArm,
    /// The time of each arrival since the start of the fetch, in nanoseconds, and
    /// all bytes that had arrived by then.
    pub samples: Seq<(u64, u64)>,
    pub cum_bytes: nat,
    /// Consecutive seconds without an arrival.
    pub starve_secs: nat,
    /// The most bytes that any window held.
    pub best_window: nat,
}

/// What had arrived by `cut`, as the samples tell it.
pub open spec fn arrived_by(samples: Seq<(u64, u64)>, cut: int) -> nat
    decreases samples.len(),
{
    if samples.len() == 0 {
        0
    } else if samples.last().0 <= cut {
        samples.last().1 as nat
    } else {
        arrived_by(samples.drop_last(), cut)
    }
}

/// A window of `bytes` in ten seconds, as a rate.
pub open spec fn window_rate(bytes: nat) -> nat {
    bytes * 100
}

/// Hundredths of a MiB per second, as a rate.
pub open spec fn centi_rate(centi: nat) -> nat {
    centi * 10_485_760
}

impl DetectorModel {
    /// Whether firing is allowed yet.
    pub open spec fn warmed_up(self, now: int) -> bool {
        now > DETECT_WARMUP_NANOS && self.cum_bytes > DETECT_WARMUP_BYTES
    }

    /// The bytes of the window that ends now; none until the pass is older than
    /// a window.
    pub open spec fn window(self, now: int) -> Option<nat> {
        let cut = now - DETECT_WINDOW_NANOS;
        if cut <= 0 {
            None
        } else {
            let base = arrived_by(self.samples, cut);
            Some(
                if self.cum_bytes >= base {
                    (self.cum_bytes - base) as nat
                } else {
                    0
                },
            )
        }
    }

    /// The rate below which a window counts as collapsed against the best one.
    pub open spec fn relative_floor(self) -> nat {
        self.arm.collapse_percent as nat * self.best_window
    }

    /// Whether a window of `bytes` is a collapse.
    pub open spec fn collapsed(self, bytes: nat) -> bool {
        let rate = window_rate(bytes);
        ||| rate < self.relative_floor() && rate < centi_rate(self.arm.painful_centi_mbps as nat)
        ||| rate < centi_rate(self.arm.floor_centi_mbps as nat)
    }

    /// The floor that a collapse is reported with.
    pub open spec fn reported_floor(self) -> nat {
        let painful = centi_rate(self.arm.painful_centi_mbps as nat);
        let low = if self.relative_floor() < painful {
            self.relative_floor()
        } else {
            painful
        };
        let floor = centi_rate(self.arm.floor_centi_mbps as nat);
        if low > floor {
            low
        } else {
            floor
        }
    }

    /// The detector once `bytes` have arrived at `now`.
    pub open spec fn after_arrival(self, bytes: nat, now: u64) -> DetectorModel {
        let cum = self.cum_bytes + bytes;
        let seen = DetectorModel {
            arm: self.arm,
            samples: self.samples.push((now, cum as u64)),
            cum_bytes: cum,
            starve_secs: 0,
            best_window: self.best_window,
        };
        match seen.window(now as int) {
            Some(w) if w > seen.best_window => DetectorModel { best_window: w, ..seen },
            _ => seen,
        }
    }

    /// Whether an arrival leaves the detector fired.
    pub open spec fn fires_on_arrival(self, bytes: nat, now: u64) -> bool {
        let seen = self.after_arrival(bytes, now);
        seen.window(now as int) is Some && seen.warmed_up(now as int) && seen.collapsed(
            seen.window(now as int)->Some_0,
        )
    }

    /// Whether one more second without an arrival fires the detector.
    pub open spec fn fires_on_starve(self, now: int) -> bool {
        self.warmed_up(now) && self.starve_secs + 1 >= self.arm.stall_secs
    }

    /// Whether an error tells of the collapse that the detector sees at `now`.
    pub open spec fn tells_collapse(self, e: SlipstreamError, now: int) -> bool {
        e matches SlipstreamError::WireCollapse { measured_mbps, floor_mbps }
            && measured_mbps.bytes_per_kilosecond == window_rate(self.window(now)->Some_0)
            && floor_mbps.bytes_per_kilosecond == self.reported_floor()
    }

    /// Whether an error tells of a stall.
    pub open spec fn tells_stall(self, e: SlipstreamError) -> bool {
        e matches SlipstreamError::WireCollapse { measured_mbps, floor_mbps }
            && measured_mbps.bytes_per_kilosecond == 0 && floor_mbps.bytes_per_kilosecond
            == centi_rate(self.arm.floor_centi_mbps as nat)
    }
}

/// Watches the arrivals of one fetch.
pub struct WireDetector {
    arm: WireFailoverArm,
    samples: Vec<(u64, u64)>,
    cum_bytes: u64,
    starve_secs: u64,
    best_window: u64,
}

impl View for WireDetector {
    type V = DetectorModel;

    closed spec fn view(&self) -> DetectorModel {
        DetectorModel {
            arm: self.arm,
            samples: self.samples@,
            cum_bytes: self.cum_bytes as nat,
            starve_secs: self.starve_secs as nat,
            best_window: self.best_window as nat,
        }
    }
}

fn centi_to_rate(centi: u64) -> (r: u128)
    ensures
        r == centi_rate(centi as nat),
{
    centi as u128 * CENTI_MIB_PER_KILOSECOND
}

impl WireDetector {
    /// A detector with these thresholds that has seen nothing.
    pub fn new(arm: WireFailoverArm) -> (r: Self)
        ensures
            r@ == (DetectorModel {
                arm,
                samples: Seq::empty(),
                cum_bytes: 0,
                starve_secs: 0,
                best_window: 0,
            }),
    {
        let r = WireDetector {
            arm,
            samples: Vec::new(),
            cum_bytes: 0,
            starve_secs: 0,
            best_window: 0,
        };
        assert(r@.samples =~= Seq::empty());
        r
    }

    fn warmed_up(&self, now: u64) -> (b: bool)
        ensures
            b == self@.warmed_up(now as int),
    {
        now > DETECT_WARMUP_NANOS && self.cum_bytes > DETECT_WARMUP_BYTES
    }

    fn window(&self, now: u64) -> (r: Option<u64>)
        ensures
            r is Some <==> self@.window(now as int) is Some,
            r matches Some(w) ==> w == self@.window(now as int)->Some_0,
    {
        if now <= DETECT_WINDOW_NANOS {
            return None;
        }
        let cut: u64 = now - DETECT_WINDOW_NANOS;
        let mut base: u64 = 0;
        let mut i: usize = self.samples.len();
        assert(self.samples@.take(i as int) =~= self.samples@);
        while i > 0
            invariant_except_break
                base == 0,
                0 <= i <= self.samples@.len(),
                arrived_by(self.samples@, cut as int) == arrived_by(
                    self.samples@.take(i as int),
                    cut as int,
                ),
            ensures
                base == arrived_by(self.samples@, cut as int),
            decreases i,
        {
            let s: (u64, u64) = self.samples[i - 1];
            assert(self.samples@.take(i as int).drop_last() =~= self.samples@.take(i - 1));
            if s.0 <= cut {
                base = s.1;
                break;
            }
            i = i - 1;
        }
        Some(self.cum_bytes.saturating_sub(base))
    }

    /// Records that `bytes` arrived at `now`; fails where that shows a collapse.
    pub fn arrival(&mut self, bytes: u64, now: u64) -> (r: Result<(), SlipstreamError>)
        requires
            old(self)@.cum_bytes + bytes <= u64::MAX,
        ensures
            final(self)@ == old(self)@.after_arrival(bytes as nat, now),
            r is Ok <==> !old(self)@.fires_on_arrival(bytes as nat, now),
            r matches Err(e) ==> final(self)@.tells_collapse(e, now as int),
    {
        self.starve_secs = 0;
        self.cum_bytes = self.cum_bytes + bytes;
        self.samples.push((now, self.cum_bytes));
        let w: u64 = match self.window(now) {
            Some(w) => w,
            None => {
                assert(self@.samples =~= old(self)@.after_arrival(bytes as nat, now).samples);
                return Ok(());
            },
        };
        if w > self.best_window {
            self.best_window = w;
        }
        assert(self@.samples =~= old(self)@.after_arrival(bytes as nat, now).samples);
        assert(self@ == old(self)@.after_arrival(bytes as nat, now));
        if !self.warmed_up(now) {
            return Ok(());
        }
        proof {
            assert(self.arm.collapse_percent * self.best_window <= 0xffff_ffff_ffff_ffff
                * 0xffff_ffff_ffff_ffff) by (nonlinear_arith)
                requires
                    0 <= self.arm.collapse_percent <= 0xffff_ffff_ffff_ffff,
                    0 <= self.best_window <= 0xffff_ffff_ffff_ffff,
            ;
        }
        let rate: u128 = w as u128 * 100;
        let relative: u128 = self.arm.collapse_percent as u128 * self.best_window as u128;
        let painful: u128 = centi_to_rate(self.arm.painful_centi_mbps);
        let floor: u128 = centi_to_rate(self.arm.floor_centi_mbps);
        if (rate < relative && rate < painful) || rate < floor {
            let low: u128 = if relative < painful {
                relative
            } else {
                painful
            };
            let reported: u128 = if low > floor {
                low
            } else {
                floor
            };
            return Err(
                SlipstreamError::WireCollapse {
                    measured_mbps: WireRate { bytes_per_kilosecond: rate },
                    floor_mbps: WireRate { bytes_per_kilosecond: reported },
                },
            );
        }
        Ok(())
    }

    /// Records one second without any arrival; fails where that shows a stall.
    pub fn starve_tick(&mut self, now: u64) -> (r: Result<(), SlipstreamError>)
        requires
            old(self)@.starve_secs < u64::MAX,
        ensures
            final(self)@ == (DetectorModel {
                starve_secs: old(self)@.starve_secs + 1,
                ..old(self)@
            }),
            r is Ok <==> !old(self)@.fires_on_starve(now as int),
            r matches Err(e) ==> old(self)@.tells_stall(e),
    {
        self.starve_secs = self.starve_secs + 1;
        if self.warmed_up(now) && self.starve_secs >= self.arm.stall_secs {
            return Err(
                SlipstreamError::WireCollapse {
                    measured_mbps: WireRate { bytes_per_kilosecond: 0 },
                    floor_mbps: WireRate {
                        bytes_per_kilosecond: centi_to_rate(self.arm.floor_centi_mbps),
                    },
                },
            );
        }
        Ok(())
    }
}

/// A window at a usable rate is never a collapse, however good the best one was.
pub proof fn law_usable_rate_never_fires(d: DetectorModel, bytes: nat)
    requires
        window_rate(bytes) >= centi_rate(d.arm.painful_centi_mbps as nat),
        window_rate(bytes) >= centi_rate(d.arm.floor_centi_mbps as nat),
    ensures
        !d.collapsed(bytes),
{
}

/// A pass that runs at its own best rate is never a collapse unless that rate is
/// below the unconditional floor: such a rate is the access network's doing.
pub proof fn law_steady_rate_never_fires(d: DetectorModel, bytes: nat)
    requires
        d.arm.collapse_percent <= 100,
        bytes >= d.best_window,
        window_rate(bytes) >= centi_rate(d.arm.floor_centi_mbps as nat),
    ensures
        !d.collapsed(bytes),
{
    assert(d.arm.collapse_percent as nat * d.best_window <= 100 * bytes) by (nonlinear_arith)
        requires
            0 <= d.arm.collapse_percent <= 100,
            0 <= d.best_window <= bytes,
    ;
}

/// Nothing fires before the warm-up is over.
pub proof fn law_silent_before_warmup(d: DetectorModel, bytes: nat, now: u64)
    requires
        now <= DETECT_WARMUP_NANOS || d.cum_bytes + bytes <= DETECT_WARMUP_BYTES,
    ensures
        !d.fires_on_arrival(bytes, now),
        d.cum_bytes <= DETECT_WARMUP_BYTES || now <= DETECT_WARMUP_NANOS ==> !d.fires_on_starve(
            now as int,
        ),
{
}

/// Arrivals: the bytes of each, and when it came.
pub open spec fn after_arrivals(d: DetectorModel, arrivals: Seq<(nat, u64)>) -> DetectorModel
    decreases arrivals.len(),
{
    if arrivals.len() == 0 {
        d
    } else {
        after_arrivals(d, arrivals.drop_last()).after_arrival(
            arrivals.last().0,
            arrivals.last().1,
        )
    }
}

/// The bytes of all arrivals that came later than `cut`.
pub open spec fn bytes_after(arrivals: Seq<(nat, u64)>, cut: int) -> nat
    decreases arrivals.len(),
{
    if arrivals.len() == 0 {
        0
    } else {
        bytes_after(arrivals.drop_last(), cut) + if arrivals.last().1 > cut {
            arrivals.last().0
        } else {
            0
        }
    }
}

/// Whether the detector has seen nothing.
pub open spec fn is_fresh(d: DetectorModel) -> bool {
    &&& d.samples.len() == 0
    &&& d.cum_bytes == 0
    &&& d.starve_secs == 0
    &&& d.best_window == 0
}

/// Whether no arrival came before an earlier one, and all their bytes can be counted.
pub open spec fn in_order(arrivals: Seq<(nat, u64)>) -> bool {
    &&& forall|i: int, j: int|
        0 <= i <= j < arrivals.len() ==> (#[trigger] arrivals[i]).1 <= (#[trigger] arrivals[j]).1
    &&& bytes_after(arrivals, -1) <= u64::MAX
}

/// The bytes of the arrivals up to the `i`-th one that came in the ten seconds before it.
pub open spec fn window_at(arrivals: Seq<(nat, u64)>, i: int) -> nat {
    bytes_after(arrivals.take(i + 1), arrivals[i].1 - 10_000_000_000)
}

/// Whether the `i`-th arrival came once the fetch was older than a window.
pub open spec fn has_window(arrivals: Seq<(nat, u64)>, i: int) -> bool {
    arrivals[i].1 > 10_000_000_000
}

proof fn lemma_in_order_prefix(arrivals: Seq<(nat, u64)>)
    requires
        in_order(arrivals),
        arrivals.len() > 0,
    ensures
        in_order(arrivals.drop_last()),
{
    let before = arrivals.drop_last();
    assert forall|i: int, j: int| 0 <= i <= j < before.len() implies (#[trigger] before[i]).1 <= (
    #[trigger] before[j]).1 by {
        assert(before[i] == arrivals[i] && before[j] == arrivals[j]);
    }
}

proof fn lemma_bytes_split(arrivals: Seq<(nat, u64)>, cut: int)
    requires
        cut >= -1,
    ensures
        bytes_after(arrivals, cut) <= bytes_after(arrivals, -1),
    decreases arrivals.len(),
{
    if arrivals.len() > 0 {
        lemma_bytes_split(arrivals.drop_last(), cut);
    }
}

/// What the detector has counted of arrivals.
proof fn lemma_counted(d: DetectorModel, arrivals: Seq<(nat, u64)>)
    requires
        is_fresh(d),
        in_order(arrivals),
    ensures
        ({
            let m = after_arrivals(d, arrivals);
            &&& m.arm == d.arm
            &&& m.cum_bytes == bytes_after(arrivals, -1)
            &&& m.samples.len() == arrivals.len()
            &&& forall|i: int|
                0 <= i < arrivals.len() ==> (#[trigger] m.samples[i]).0 == arrivals[i].1
        }),
    decreases arrivals.len(),
{
    if arrivals.len() > 0 {
        lemma_in_order_prefix(arrivals);
        lemma_counted(d, arrivals.drop_last());
    }
}

/// What had arrived by a point in time and what came after it are all bytes.
proof fn lemma_base(d: DetectorModel, arrivals: Seq<(nat, u64)>, cut: int)
    requires
        is_fresh(d),
        in_order(arrivals),
        cut >= 0,
    ensures
        arrived_by(after_arrivals(d, arrivals).samples, cut) + bytes_after(arrivals, cut)
            == bytes_after(arrivals, -1),
    decreases arrivals.len(),
{
    if arrivals.len() > 0 {
        let before = arrivals.drop_last();
        lemma_in_order_prefix(arrivals);
        lemma_base(d, before, cut);
        lemma_counted(d, before);
        lemma_counted(d, arrivals);
        let m = after_arrivals(d, arrivals);
        assert(m.samples.drop_last() =~= after_arrivals(d, before).samples);
        assert(m.samples.last().1 == bytes_after(arrivals, -1));
        if arrivals.last().1 <= cut {
            assert forall|i: int| 0 <= i < arrivals.len() implies (#[trigger] arrivals[i]).1
                <= cut by {
                assert(arrivals[i].1 <= arrivals[arrivals.len() - 1].1);
            }
            lemma_none_after(arrivals, cut);
        }
    }
}

proof fn lemma_none_after(arrivals: Seq<(nat, u64)>, cut: int)
    requires
        forall|i: int| 0 <= i < arrivals.len() ==> (#[trigger] arrivals[i]).1 <= cut,
    ensures
        bytes_after(arrivals, cut) == 0,
    decreases arrivals.len(),
{
    if arrivals.len() > 0 {
        let before = arrivals.drop_last();
        assert forall|i: int| 0 <= i < before.len() implies (#[trigger] before[i]).1 <= cut by {
            assert(before[i] == arrivals[i]);
        }
        lemma_none_after(before, cut);
    }
}

/// After any history of arrivals, the window that ends at a later moment holds the bytes that
/// came within the ten seconds before that moment; before the fetch is ten seconds old there
/// is none.
pub proof fn law_window_is_ten_seconds(d: DetectorModel, arrivals: Seq<(nat, u64)>, now: u64)
    requires
        is_fresh(d),
        in_order(arrivals),
    ensures
        now <= 10_000_000_000 ==> after_arrivals(d, arrivals).window(now as int) is None,
        now > 10_000_000_000 ==> after_arrivals(d, arrivals).window(now as int) == Some(
            bytes_after(arrivals, now - 10_000_000_000),
        ),
{
    lemma_counted(d, arrivals);
    if now > 10_000_000_000 {
        lemma_base(d, arrivals, now - 10_000_000_000);
        lemma_bytes_split(arrivals, now - 10_000_000_000);
    }
}

/// After any history of arrivals the best window is the greatest of the windows that ended at
/// one of them: none of these was greater, and it is one of them, or zero where there is none.
pub proof fn law_best_window_is_the_greatest(d: DetectorModel, arrivals: Seq<(nat, u64)>)
    requires
        is_fresh(d),
        in_order(arrivals),
    ensures
        ({
            let best = after_arrivals(d, arrivals).best_window;
            &&& forall|i: int|
                0 <= i < arrivals.len() && #[trigger] has_window(arrivals, i) ==> window_at(
                    arrivals,
                    i,
                ) <= best
            &&& best == 0 || exists|i: int|
                0 <= i < arrivals.len() && #[trigger] has_window(arrivals, i) && best == window_at(
                    arrivals,
                    i,
                )
        }),
    decreases arrivals.len(),
{
    if arrivals.len() > 0 {
        let before = arrivals.drop_last();
        let last = arrivals.len() - 1;
        lemma_in_order_prefix(arrivals);
        law_best_window_is_the_greatest(d, before);
        lemma_counted(d, arrivals);
        let m = after_arrivals(d, arrivals);
        law_window_is_ten_seconds(d, arrivals, arrivals[last].1);
        assert(arrivals.take(last + 1) =~= arrivals);
        let had = after_arrivals(d, before).best_window;
        assert forall|i: int| 0 <= i < before.len() implies #[trigger] has_window(arrivals, i)
            == has_window(before, i) && window_at(arrivals, i) == window_at(before, i) by {
            assert(arrivals.take(i + 1) =~= before.take(i + 1));
        }
        let seen = DetectorModel {
            arm: m.arm,
            samples: m.samples,
            cum_bytes: m.cum_bytes,
            starve_secs: 0,
            best_window: had,
        };
        assert(seen.window(arrivals[last].1 as int) == m.window(arrivals[last].1 as int));
        assert forall|i: int| 0 <= i < arrivals.len() && #[trigger] has_window(arrivals, i) implies
            window_at(arrivals, i) <= m.best_window by {
            if i < last {
                assert(has_window(before, i));
            }
        }
        if m.best_window != 0 {
            if m.best_window == had {
                let i = choose|i: int|
                    0 <= i < before.len() && #[trigger] has_window(before, i) && had == window_at(
                        before,
                        i,
                    );
                assert(has_window(before, i));
                assert(has_window(arrivals, i) == has_window(before, i));
                assert(window_at(arrivals, i) == window_at(before, i));
            } else {
                assert(has_window(arrivals, last) && m.best_window == window_at(arrivals, last));
            }
        }
    }
}

/// Once fifteen seconds and four MiB are past, an arrival fires the detector where the ten
/// seconds before it brought less than the given share of the ten seconds before any earlier
/// arrival and less than the painful rate, or less than the floor.
pub proof fn law_collapse_is_found(d: DetectorModel, arrivals: Seq<(nat, u64)>, earlier: int)
    requires
        is_fresh(d),
        in_order(arrivals),
        arrivals.len() > 0,
        arrivals.last().1 > 15_000_000_000,
        bytes_after(arrivals, -1) > 4_194_304,
        0 <= earlier < arrivals.len(),
        has_window(arrivals, earlier),
    ensures
        ({
            let w = window_at(arrivals, arrivals.len() - 1);
            let fires = after_arrivals(d, arrivals.drop_last()).fires_on_arrival(
                arrivals.last().0,
                arrivals.last().1,
            );
            &&& w * 100 < d.arm.collapse_percent * window_at(arrivals, earlier) && w * 100
                < d.arm.painful_centi_mbps * 10_485_760 ==> fires
            &&& w * 100 < d.arm.floor_centi_mbps * 10_485_760 ==> fires
        }),
{
    let last = arrivals.len() - 1;
    let m = after_arrivals(d, arrivals);
    lemma_in_order_prefix(arrivals);
    lemma_counted(d, arrivals);
    lemma_counted(d, arrivals.drop_last());
    law_window_is_ten_seconds(d, arrivals, arrivals[last].1);
    law_best_window_is_the_greatest(d, arrivals);
    assert(arrivals.take(last + 1) =~= arrivals);
    let (p, a, b) = (
        d.arm.collapse_percent as nat,
        window_at(arrivals, earlier),
        m.best_window,
    );
    assert(p * a <= p * b) by (nonlinear_arith)
        requires
            a <= b,
    ;
}

/// Where the detector fires, the ten seconds before the arrival brought less than the floor,
/// or less than the painful rate and less than the given share of the ten seconds before some
/// arrival; and fifteen seconds and four MiB were past.
pub proof fn law_firing_shows_a_collapse(d: DetectorModel, arrivals: Seq<(nat, u64)>)
    requires
        is_fresh(d),
        in_order(arrivals),
        arrivals.len() > 0,
        after_arrivals(d, arrivals.drop_last()).fires_on_arrival(
            arrivals.last().0,
            arrivals.last().1,
        ),
    ensures
        ({
            let w = window_at(arrivals, arrivals.len() - 1);
            &&& arrivals.last().1 > 15_000_000_000
            &&& bytes_after(arrivals, -1) > 4_194_304
            &&& w * 100 < d.arm.floor_centi_mbps * 10_485_760 || {
                &&& w * 100 < d.arm.painful_centi_mbps * 10_485_760
                &&& exists|i: int|
                    0 <= i < arrivals.len() && #[trigger] has_window(arrivals, i) && w * 100
                        < d.arm.collapse_percent * window_at(arrivals, i)
            }
        }),
{
    let last = arrivals.len() - 1;
    let m = after_arrivals(d, arrivals);
    lemma_in_order_prefix(arrivals);
    lemma_counted(d, arrivals);
    lemma_counted(d, arrivals.drop_last());
    law_window_is_ten_seconds(d, arrivals, arrivals[last].1);
    law_best_window_is_the_greatest(d, arrivals);
    assert(arrivals.take(last + 1) =~= arrivals);
    let w = window_at(arrivals, last);
    if !(w * 100 < d.arm.floor_centi_mbps * 10_485_760) {
        assert(w * 100 < d.arm.collapse_percent as nat * m.best_window);
        assert(d.arm.collapse_percent as nat * 0 == 0) by (nonlinear_arith);
        assert(m.best_window != 0);
        let i = choose|i: int|
            0 <= i < arrivals.len() && #[trigger] has_window(arrivals, i) && m.best_window
                == window_at(arrivals, i);
        assert(has_window(arrivals, i) && w * 100 < d.arm.collapse_percent * window_at(
            arrivals,
            i,
        ));
    }
}

/// A collapse is reported with the bytes of its ten seconds as the rate, and with the floor
/// that this rate is below: a window is a collapse exactly where it is below that floor.
pub proof fn law_collapse_is_below_the_reported_floor(
    d: DetectorModel,
    bytes: nat,
    e: SlipstreamError,
    now: int,
)
    ensures
        d.collapsed(bytes) <==> bytes * 100 < d.reported_floor(),
        d.reported_floor() >= d.arm.floor_centi_mbps * 10_485_760,
        d.reported_floor() <= d.arm.floor_centi_mbps * 10_485_760 || d.reported_floor()
            <= d.arm.painful_centi_mbps * 10_485_760,
        d.reported_floor() <= d.arm.floor_centi_mbps * 10_485_760 || d.reported_floor()
            <= d.arm.collapse_percent * d.best_window,
        d.tells_collapse(e, now) && d.window(now) == Some(bytes) ==> (e
            matches SlipstreamError::WireCollapse { measured_mbps, floor_mbps }
            && measured_mbps.bytes_per_kilosecond == bytes * 100 && (d.collapsed(bytes) ==>
        measured_mbps.bytes_per_kilosecond < floor_mbps.bytes_per_kilosecond)
            && floor_mbps.bytes_per_kilosecond == d.reported_floor()),
{
}

/// Once fifteen seconds and four MiB are past, the detector fires on a second without an
/// arrival exactly where that makes as many in a row as it was given; any arrival starts the
/// count anew. The stall is reported as no rate at all, below the floor.
pub proof fn law_stall_is_found(
    d: DetectorModel,
    now: u64,
    bytes: nat,
    e: SlipstreamError,
)
    ensures
        d.fires_on_starve(now as int) <==> now > 15_000_000_000 && d.cum_bytes > 4_194_304
            && d.starve_secs + 1 >= d.arm.stall_secs,
        d.after_arrival(bytes, now).starve_secs == 0,
        d.tells_stall(e) ==> (e matches SlipstreamError::WireCollapse { measured_mbps, floor_mbps }
            && measured_mbps.bytes_per_kilosecond == 0 && floor_mbps.bytes_per_kilosecond
            == d.arm.floor_centi_mbps * 10_485_760),
{
}

} // verus!
