//! The worst sustained throughput of a fetch.
use crate::fetch::worker::FetchStats;
use vstd::prelude::*;

verus! {

/// Bytes that arrived over a time.
#[derive(Clone, Copy, Debug, PartialEq, Eq, Structural)]
pub struct WireWindow {
    pub bytes: u64,
    pub nanos: u64,
}

impl WireWindow {
    /// Whether this window is at most as fast as another one.
    pub open spec fn no_faster_than(self, other: WireWindow) -> bool {
        self.bytes * other.nanos <= other.bytes * self.nanos
    }
}

/// The arrivals of a fetch, with its start in front.
pub open spec fn anchored(samples: Seq<(u64, u64)>) -> Seq<(u64, u64)> {
    seq![(0u64, 0u64)] + samples
}

/// Whether arrival `j` comes at least `span` after arrival `i`.
pub open spec fn spans(s: Seq<(u64, u64)>, span: int, i: int, j: int) -> bool {
    0 <= i < j < s.len() && s[j].0 - s[i].0 >= span
}

/// What arrived between two arrivals.
pub open spec fn window_between(s: Seq<(u64, u64)>, i: int, j: int) -> WireWindow {
    WireWindow {
        bytes: if s[j].1 >= s[i].1 {
            (s[j].1 - s[i].1) as u64
        } else {
            0
        },
        nanos: (s[j].0 - s[i].0) as u64,
    }
}

/// Whether a window is one of at least `span`, and none of these is slower.
pub open spec fn is_worst(s: Seq<(u64, u64)>, span: int, w: WireWindow) -> bool {
    &&& exists|i: int, j: int| #[trigger] spans(s, span, i, j) && w == window_between(s, i, j)
    &&& forall|i: int, j: int| #[trigger]
        spans(s, span, i, j) ==> w.no_faster_than(window_between(s, i, j))
}

impl FetchStats {
    /// The slowest window of at least `span` nanoseconds between two arrivals, or the start
    /// and an arrival; the whole fetch where it was shorter.
    pub fn worst_window_mbps(&self, span: u64) -> (r: WireWindow)
        requires
            span > 0,
        ensures
            ({
                let s = anchored(self.wire_samples@);
                if exists|i: int, j: int| spans(s, span as int, i, j) {
                    is_worst(s, span as int, r)
                } else {
                    r == (WireWindow { bytes: self.bytes, nanos: self.elapsed_nanos })
                }
            }),
    {
        let mut s: Vec<(u64, u64)> = Vec::new();
        s.push((0, 0));
        let mut k: usize = 0;
        while k < self.wire_samples.len()
            invariant
                0 <= k <= self.wire_samples@.len(),
                s@ == anchored(self.wire_samples@.take(k as int)),
            decreases self.wire_samples@.len() - k,
        {
            s.push(self.wire_samples[k]);
            assert(self.wire_samples@.take(k + 1) =~= self.wire_samples@.take(k as int).push(
                self.wire_samples@[k as int],
            ));
            k = k + 1;
            assert(s@ =~= anchored(self.wire_samples@.take(k as int)));
        }
        assert(self.wire_samples@.take(self.wire_samples@.len() as int) =~= self.wire_samples@);
        let ghost all = anchored(self.wire_samples@);
        assert(s@ == all);
        let n: usize = s.len();
        let mut worst: Option<WireWindow> = None;
        let mut j: usize = 1;
        while j < n
            invariant
                1 <= j <= n,
                n == all.len(),
                s@ == all,
                span > 0,
                worst matches Some(w) ==> is_candidate(all, span as int, w),
                forall|a: int, b: int| #[trigger]
                    spans(all, span as int, a, b) && b < j ==> worst is Some
                        && worst->Some_0.no_faster_than(window_between(all, a, b)),
            decreases n - j,
        {
            let mut i: usize = 0;
            while i < j
                invariant
                    0 <= i <= j,
                    1 <= j < n,
                    n == all.len(),
                    s@ == all,
                    span > 0,
                    worst matches Some(w) ==> is_candidate(all, span as int, w),
                    forall|a: int, b: int| #[trigger]
                        spans(all, span as int, a, b) && (b < j || (b == j && a < i)) ==> worst
                            is Some && worst->Some_0.no_faster_than(window_between(all, a, b)),
                decreases j - i,
            {
                if s[j].0 >= s[i].0 && s[j].0 - s[i].0 >= span {
                    let here: WireWindow = WireWindow {
                        bytes: s[j].1.saturating_sub(s[i].1),
                        nanos: s[j].0 - s[i].0,
                    };
                    assert(spans(all, span as int, i as int, j as int));
                    assert(here == window_between(all, i as int, j as int));
                    assert(is_candidate(all, span as int, here));
                    let ghost before = worst;
                    worst = slower(worst, here);
                    proof {
                        assert forall|a: int, b: int| #[trigger]
                            spans(all, span as int, a, b) && (b < j || (b == j && a < i + 1))
                            implies worst is Some && worst->Some_0.no_faster_than(
                            window_between(all, a, b),
                        ) by {
                            if !(b == j && a == i) {
                                lemma_no_faster_trans(
                                    worst->Some_0,
                                    before->Some_0,
                                    window_between(all, a, b),
                                );
                            }
                        }
                    }
                }
                i = i + 1;
            }
            j = j + 1;
        }
        match worst {
            Some(w) => w,
            None => WireWindow { bytes: self.bytes, nanos: self.elapsed_nanos },
        }
    }
}

/// Whether a window is one of at least `span`, which is some time.
spec fn is_candidate(s: Seq<(u64, u64)>, span: int, w: WireWindow) -> bool {
    w.nanos > 0 && exists|i: int, j: int| #[trigger]
        spans(s, span, i, j) && w == window_between(s, i, j)
}

/// The slower one of two windows, the first one of equals.
fn slower(worst: Option<WireWindow>, here: WireWindow) -> (r: Option<WireWindow>)
    ensures
        r is Some,
        r == worst || r == Some(here),
        r->Some_0.no_faster_than(here),
        worst matches Some(w) ==> r->Some_0.no_faster_than(w),
{
    proof {
        assert(here.bytes * here.nanos <= here.bytes * here.nanos);
    }
    match worst {
        None => Some(here),
        Some(w) => {
            proof {
                lemma_product_fits(here.bytes, w.nanos);
                lemma_product_fits(w.bytes, here.nanos);
            }
            if (here.bytes as u128) * (w.nanos as u128) < (w.bytes as u128) * (here.nanos as u128) {
                Some(here)
            } else {
                Some(w)
            }
        },
    }
}

proof fn lemma_product_fits(a: u64, b: u64)
    ensures
        a * b <= u128::MAX,
{
    assert(a * b <= 0xffff_ffff_ffff_ffff * 0xffff_ffff_ffff_ffff) by (nonlinear_arith)
        requires
            0 <= a <= 0xffff_ffff_ffff_ffff,
            0 <= b <= 0xffff_ffff_ffff_ffff,
    ;
}

proof fn lemma_no_faster_trans(a: WireWindow, b: WireWindow, c: WireWindow)
    requires
        a.no_faster_than(b),
        b.no_faster_than(c),
        b.nanos > 0,
    ensures
        a.no_faster_than(c),
{
    let (ab, an, bb, bn, cb, cn) = (
        a.bytes as int,
        a.nanos as int,
        b.bytes as int,
        b.nanos as int,
        c.bytes as int,
        c.nanos as int,
    );
    assert(ab * cn <= cb * an) by (nonlinear_arith)
        requires
            ab * bn <= bb * an,
            bb * cn <= cb * bn,
            bn > 0,
            ab >= 0,
            an >= 0,
            bb >= 0,
            cb >= 0,
            cn >= 0,
    {
        assert((ab * bn) * cn <= (bb * an) * cn) by (nonlinear_arith)
            requires
                ab * bn <= bb * an,
                cn >= 0,
        ;
        assert((bb * cn) * an <= (cb * bn) * an) by (nonlinear_arith)
            requires
                bb * cn <= cb * bn,
                an >= 0,
        ;
        assert((ab * cn) * bn <= (cb * an) * bn) by (nonlinear_arith)
            requires
                (ab * bn) * cn <= (bb * an) * cn,
                (bb * cn) * an <= (cb * bn) * an,
        ;
    }
}

/// The worst window is the slowest: it was measured from the start or from an arrival to a
/// later arrival, at least `span` apart, and between no two points that are as far apart was
/// less received in proportion to the time.
pub proof fn law_no_span_is_slower(samples: Seq<(u64, u64)>, span: u64, w: WireWindow)
    requires
        span > 0,
        is_worst(anchored(samples), span as int, w),
    ensures
        forall|i: int, j: int|
            0 <= i < j < samples.len() && (#[trigger] samples[j]).0 >= (#[trigger] samples[i]).0
                + span && samples[j].1 >= samples[i].1 ==> w.bytes * (samples[j].0 - samples[i].0)
                <= (samples[j].1 - samples[i].1) * w.nanos,
        forall|j: int|
            0 <= j < samples.len() && (#[trigger] samples[j]).0 >= span ==> w.bytes * samples[j].0
                <= samples[j].1 * w.nanos,
        w.nanos >= span,
        (exists|j: int|
            0 <= j < samples.len() && (#[trigger] samples[j]).0 == w.nanos && samples[j].1
                == w.bytes) || (exists|i: int, j: int|
            0 <= i < j < samples.len() && (#[trigger] samples[j]).0 - (#[trigger] samples[i]).0
                == w.nanos && (samples[j].1 - samples[i].1 == w.bytes || (samples[j].1
                < samples[i].1 && w.bytes == 0))),
{
    let s = anchored(samples);
    assert(s[0] == (0u64, 0u64));
    assert forall|i: int| 0 <= i < samples.len() implies s[i + 1] == #[trigger] samples[i] by {}
    assert forall|i: int, j: int|
        0 <= i < j < samples.len() && (#[trigger] samples[j]).0 >= (#[trigger] samples[i]).0 + span
            && samples[j].1 >= samples[i].1 implies w.bytes * (samples[j].0 - samples[i].0) <= (
    samples[j].1 - samples[i].1) * w.nanos by {
        assert(s[i + 1] == samples[i] && s[j + 1] == samples[j]);
        assert(spans(s, span as int, i + 1, j + 1));
    }
    assert forall|j: int| 0 <= j < samples.len() && (#[trigger] samples[j]).0 >= span implies
        w.bytes * samples[j].0 <= samples[j].1 * w.nanos by {
        assert(s[j + 1] == samples[j]);
        assert(spans(s, span as int, 0, j + 1));
    }
    let (i, j) = choose|i: int, j: int| #[trigger]
        spans(s, span as int, i, j) && w == window_between(s, i, j);
    assert(s[j] == samples[j - 1]);
    if i > 0 {
        assert(s[i] == samples[i - 1]);
        assert(samples[j - 1].0 - samples[i - 1].0 == w.nanos);
    } else {
        assert(samples[j - 1].0 == w.nanos && samples[j - 1].1 == w.bytes);
    }
}

/// A window is measured wherever two points of a fetch, its start among them, are far enough
/// apart.
pub proof fn law_long_spans_are_seen(samples: Seq<(u64, u64)>, span: u64, i: int, j: int)
    requires
        0 <= j < samples.len(),
        -1 <= i < j,
    ensures
        i == -1 && samples[j].0 >= span ==> spans(anchored(samples), span as int, 0, j + 1),
        i >= 0 && samples[j].0 >= samples[i].0 + span ==> spans(
            anchored(samples),
            span as int,
            i + 1,
            j + 1,
        ),
{
    let s = anchored(samples);
    assert(s[j + 1] == samples[j]);
    if i >= 0 {
        assert(s[i + 1] == samples[i]);
    }
}

} // verus!
