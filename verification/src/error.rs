//! The crate-wide error type: one variant per subsystem.
use crate::text::{dec, dec_padded, push_dec, push_dec_padded, u128_to_dec};
use vstd::prelude::*;

verus! {

/// A wire rate, in bytes per thousand seconds. Every rate that the fetch layer
/// compares (a ten-second window, a percentage of one, hundredths of a MiB per
/// second) is a whole number in this unit.
#[derive(Clone, Copy, Debug, PartialEq, Eq, Structural)]
pub struct WireRate {
    pub bytes_per_kilosecond: u128,
}

/// Bytes per thousand seconds in one hundredth of a MiB per second.
pub const CENTI_MIB_PER_KILOSECOND: u128 = 10_485_760;

impl WireRate {
    /// The rate in hundredths of a MiB per second, rounded to the nearest one,
    /// ties to the even one.
    pub open spec fn centi_mib(self) -> nat {
        let q = self.bytes_per_kilosecond as nat / CENTI_MIB_PER_KILOSECOND as nat;
        let r = self.bytes_per_kilosecond as nat % CENTI_MIB_PER_KILOSECOND as nat;
        if 2 * r > CENTI_MIB_PER_KILOSECOND || (2 * r == CENTI_MIB_PER_KILOSECOND && q % 2 == 1) {
            q + 1
        } else {
            q
        }
    }

    /// The rate in MiB per second with two decimals.
    pub open spec fn text(self) -> Seq<char> {
        dec(self.centi_mib() / 100) + "."@ + dec_padded(self.centi_mib() % 100, 2)
    }

    /// Appends the rate in MiB per second with two decimals.
    pub fn push_text(&self, out: &mut String)
        ensures
            final(out)@ == old(out)@ + self.text(),
    {
        let mut q: u128 = self.bytes_per_kilosecond / CENTI_MIB_PER_KILOSECOND;
        let r: u128 = self.bytes_per_kilosecond % CENTI_MIB_PER_KILOSECOND;
        if 2 * r > CENTI_MIB_PER_KILOSECOND || (2 * r == CENTI_MIB_PER_KILOSECOND && q % 2 == 1) {
            q = q + 1;
        }
        let ghost base = out@;
        let whole: String = u128_to_dec(q / 100);
        out.push_str(whole.as_str());
        out.push_str(".");
        push_dec_padded(out, (q % 100) as u64, 2);
        assert(out@ =~= base + self.text());
    }
}

/// Crate-wide error returned by every Slipstream subsystem.
#[derive(Debug)]
#[non_exhaustive]
pub enum SlipstreamError {
    /// The configuration is invalid.
    Config(String),
    /// A timeout, a failed connection, a stalled or broken stream.
    Transport(String),
    /// Fetched blocks do not form a chain.
    Discontinuity { at: u32, detail: String },
    /// The wallet database reported an error.
    Wallet(String),
    /// The server answered with data that cannot be.
    MisbehavingServer,
    /// The engine is stopped.
    Stopped,
    /// The scan found a chain continuity break (a reorg) at this height.
    ScanContinuity { at: u32 },
    /// The throughput of the current endpoint fell below the failover floor, or
    /// nothing arrived at all, while the scan side kept up. `measured_mbps` is
    /// the rate of the offending window, zero for a full stall.
    WireCollapse { measured_mbps: WireRate, floor_mbps: WireRate },
}

impl SlipstreamError {
    /// Whether the error reflects a failure of the transport that a retry,
    /// ideally over a fresh connection, may cure. A wire collapse is none: the
    /// retry would dial the collapsed server again.
    pub fn is_transient(&self) -> (b: bool)
        ensures
            b == (self is Transport),
    {
        match self {
            SlipstreamError::Transport(_) => true,
            _ => false,
        }
    }

    /// The sentence that describes the error.
    pub open spec fn text(self) -> Seq<char> {
        match self {
            SlipstreamError::Config(m) => "invalid configuration: "@ + m@,
            SlipstreamError::Transport(m) => "transport: "@ + m@,
            SlipstreamError::Discontinuity { at, detail } => "chain discontinuity at height "@
                + dec(at as nat) + ": "@ + detail@,
            SlipstreamError::Wallet(m) => "wallet db: "@ + m@,
            SlipstreamError::MisbehavingServer =>
                "misbehaving server (invalid or out-of-range data in response)"@,
            SlipstreamError::Stopped => "engine is stopped"@,
            SlipstreamError::ScanContinuity { at } => "scan continuity break at height "@ + dec(
                at as nat,
            ),
            SlipstreamError::WireCollapse { measured_mbps, floor_mbps } => "wire collapse: "@
                + measured_mbps.text() + " MB/s sustained (floor "@ + floor_mbps.text() + ")"@,
        }
    }

    /// The sentence that describes the error.
    pub fn message(&self) -> (r: String)
        ensures
            r@ == self.text(),
    {
        match self {
            SlipstreamError::Config(m) => {
                let mut s: String = "invalid configuration: ".to_owned();
                s.push_str(m.as_str());
                s
            },
            SlipstreamError::Transport(m) => {
                let mut s: String = "transport: ".to_owned();
                s.push_str(m.as_str());
                s
            },
            SlipstreamError::Discontinuity { at, detail } => {
                let mut s: String = "chain discontinuity at height ".to_owned();
                push_dec(&mut s, *at as u64);
                s.push_str(": ");
                s.push_str(detail.as_str());
                s
            },
            SlipstreamError::Wallet(m) => {
                let mut s: String = "wallet db: ".to_owned();
                s.push_str(m.as_str());
                s
            },
            SlipstreamError::MisbehavingServer => {
                "misbehaving server (invalid or out-of-range data in response)".to_owned()
            },
            SlipstreamError::Stopped => "engine is stopped".to_owned(),
            SlipstreamError::ScanContinuity { at } => {
                let mut s: String = "scan continuity break at height ".to_owned();
                push_dec(&mut s, *at as u64);
                s
            },
            SlipstreamError::WireCollapse { measured_mbps, floor_mbps } => {
                let mut s: String = "wire collapse: ".to_owned();
                measured_mbps.push_text(&mut s);
                s.push_str(" MB/s sustained (floor ");
                floor_mbps.push_text(&mut s);
                s.push_str(")");
                s
            },
        }
    }
}

/// A rate is rounded to the nearest hundredth of a MiB per second: it is at most half of one
/// away, and where two are equally near, the even one is taken.
pub proof fn law_rates_are_rounded_to_the_nearest(r: WireRate)
    ensures
        2 * (r.centi_mib() * 10_485_760 - r.bytes_per_kilosecond) <= 10_485_760,
        2 * (r.bytes_per_kilosecond - r.centi_mib() * 10_485_760) <= 10_485_760,
        2 * (r.centi_mib() * 10_485_760 - r.bytes_per_kilosecond) == 10_485_760 || 2 * (
        r.bytes_per_kilosecond - r.centi_mib() * 10_485_760) == 10_485_760 ==> r.centi_mib() % 2
            == 0,
{
    let n = r.bytes_per_kilosecond as int;
    let q = n / 10_485_760;
    assert(n == q * 10_485_760 + n % 10_485_760);
}

/// A rate is written as whole MiB per second, a point and two more digits.
pub proof fn law_rates_have_two_decimals(r: WireRate, whole: nat, hundredths: nat)
    requires
        r.centi_mib() == whole * 100 + hundredths,
        hundredths < 100,
    ensures
        r.text() == dec(whole) + seq!['.'] + dec_padded(hundredths, 2),
{
    reveal_strlit(".");
    assert("."@ =~= seq!['.']);
    assert(r.centi_mib() / 100 == whole && r.centi_mib() % 100 == hundredths);
}

/// An error's sentence names its subsystem and hands on what it was told: the words, the
/// height, the measured rate and the floor.
pub proof fn law_errors_say_what_they_were_told(
    m: String,
    at: u32,
    measured: WireRate,
    floor: WireRate,
)
    ensures
        SlipstreamError::Config(m).text() == "invalid configuration: "@ + m@,
        SlipstreamError::Transport(m).text() == "transport: "@ + m@,
        SlipstreamError::Wallet(m).text() == "wallet db: "@ + m@,
        (SlipstreamError::Discontinuity { at, detail: m }).text()
            == "chain discontinuity at height "@ + dec(at as nat) + ": "@ + m@,
        (SlipstreamError::ScanContinuity { at }).text() == "scan continuity break at height "@
            + dec(at as nat),
        (SlipstreamError::WireCollapse { measured_mbps: measured, floor_mbps: floor }).text()
            == "wire collapse: "@ + measured.text() + " MB/s sustained (floor "@ + floor.text()
            + ")"@,
        SlipstreamError::MisbehavingServer.text()
            == "misbehaving server (invalid or out-of-range data in response)"@,
        SlipstreamError::Stopped.text() == "engine is stopped"@,
{
}

} // verus!
