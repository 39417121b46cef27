//! What the commands print.
use crate::engine::SyncOutcome;
use crate::events::Progress;
use crate::ffi_handle::FfiSlipstreamSnapshot;
use crate::oracle::{hex, push_hex};
use crate::text::{dec, dec_padded, push_dec, push_dec_padded, push_signed, signed_dec};
use vstd::prelude::*;

verus! {

/// The name of an event's tag.
pub open spec fn tag_text(tag: u8) -> Seq<char> {
    match tag {
        1 => "SyncStarted"@,
        2 => "SyncProgress"@,
        3 => "SyncDone"@,
        4 => "SyncError"@,
        5 => "FoundTransactions"@,
        _ => "Unknown"@,
    }
}

/// The name of an event's tag.
pub fn event_tag_name(tag: u8) -> (r: &'static str)
    ensures
        r@ == tag_text(tag),
{
    match tag {
        1 => "SyncStarted",
        2 => "SyncProgress",
        3 => "SyncDone",
        4 => "SyncError",
        5 => "FoundTransactions",
        _ => "Unknown",
    }
}

/// The absolute value of an amount.
pub open spec fn magnitude(zat: i64) -> nat {
    if zat < 0 {
        (-zat) as nat
    } else {
        zat as nat
    }
}

/// An amount in ZEC, with eight decimals.
pub open spec fn zec_text(zat: i64) -> Seq<char> {
    (if zat < 0 {
        "-"@
    } else {
        ""@
    }) + dec(magnitude(zat) / 100_000_000) + "."@ + dec_padded(magnitude(zat) % 100_000_000, 8)
}

/// An amount of zatoshis in ZEC, with eight decimals.
pub fn zec_display(zat: i64) -> (r: String)
    ensures
        r@ == zec_text(zat),
{
    let mut s: String = String::new();
    let wide: i128 = zat as i128;
    let a: u64 = if wide < 0 {
        s.push_str("-");
        (-wide) as u64
    } else {
        wide as u64
    };
    proof {
        reveal_strlit("");
    }
    let ghost sign = if zat < 0 {
        "-"@
    } else {
        ""@
    };
    assert(s@ =~= sign);
    push_dec(&mut s, a / 100_000_000);
    s.push_str(".");
    push_dec_padded(&mut s, a % 100_000_000, 8);
    s
}

/// The first four bytes of an id in hexadecimal; all of it where it is shorter.
pub fn uuid_prefix(bytes: &Vec<u8>) -> (r: String)
    ensures
        r@ == hex(if bytes@.len() < 4 {
            bytes@
        } else {
            bytes@.take(4)
        }),
{
    let mut head: Vec<u8> = Vec::new();
    let mut i: usize = 0;
    let n: usize = if bytes.len() < 4 {
        bytes.len()
    } else {
        4
    };
    while i < n
        invariant
            0 <= i <= n <= bytes@.len(),
            head@ == bytes@.take(i as int),
        decreases n - i,
    {
        head.push(bytes[i]);
        i = i + 1;
        assert(head@ =~= bytes@.take(i as int));
    }
    assert(bytes@.take(bytes@.len() as int) =~= bytes@);
    let mut s: String = String::new();
    push_hex(&mut s, &head);
    assert(s@ =~= hex(head@));
    s
}

/// The line that a sync prints while it runs.
pub fn ticker_line(p: &Progress) -> (r: String)
    ensures
        r@ == "progress: fetched "@ + dec(p.fetched_blocks as nat) + " | scanned "@ + dec(
            p.scanned_blocks as nat,
        ) + " | enhanced "@ + dec(p.enhanced_txs as nat) + " (tip "@ + dec(p.chain_tip as nat)
            + ")"@,
{
    let mut s: String = "progress: fetched ".to_owned();
    push_dec(&mut s, p.fetched());
    s.push_str(" | scanned ");
    push_dec(&mut s, p.scanned());
    s.push_str(" | enhanced ");
    push_dec(&mut s, p.enhanced());
    s.push_str(" (tip ");
    push_dec(&mut s, p.chain_tip());
    s.push_str(")");
    s
}

/// The line for an event.
pub fn event_line(tag: u8, value: u64) -> (r: String)
    ensures
        r@ == "event: "@ + tag_text(tag) + " (value "@ + dec(value as nat) + ")"@,
{
    let mut s: String = "event: ".to_owned();
    s.push_str(event_tag_name(tag));
    s.push_str(" (value ");
    push_dec(&mut s, value);
    s.push_str(")");
    s
}

/// The lines of a sync's summary that hold only whole numbers: the notes that were found, the
/// enhancement, the transparent outputs, and the reorgs, where there were any.
pub fn summary_lines(o: &SyncOutcome) -> (r: Vec<String>)
    ensures
        r@.len() == if o.report.reorgs_recovered > 0 {
            4nat
        } else {
            3nat
        },
        r@[0]@ == "notes found: sapling "@ + dec(o.report.sapling_received as nat) + " orchard "@
            + dec(o.report.orchard_received as nat),
        r@[1]@ == "enhanced: "@ + dec(o.enhance.txs_stored as nat) + " txs, "@ + dec(
            o.enhance.statuses_set as nat,
        ) + " statuses ("@ + dec(o.enhance.skipped as nat) + " skipped)"@,
        r@[2]@ == "utxos: "@ + dec(o.transparent.utxos as nat) + " across "@ + dec(
            o.transparent.accounts as nat,
        ) + " accounts"@,
        o.report.reorgs_recovered > 0 ==> r@[3]@ == "reorgs: "@ + dec(
            o.report.reorgs_recovered as nat,
        ) + " recovered"@,
{
    let mut lines: Vec<String> = Vec::new();
    let mut a: String = "notes found: sapling ".to_owned();
    push_dec(&mut a, o.report.sapling_received);
    a.push_str(" orchard ");
    push_dec(&mut a, o.report.orchard_received);
    lines.push(a);
    let mut b: String = "enhanced: ".to_owned();
    push_dec(&mut b, o.enhance.txs_stored);
    b.push_str(" txs, ");
    push_dec(&mut b, o.enhance.statuses_set);
    b.push_str(" statuses (");
    push_dec(&mut b, o.enhance.skipped);
    b.push_str(" skipped)");
    lines.push(b);
    let mut c: String = "utxos: ".to_owned();
    push_dec(&mut c, o.transparent.utxos);
    c.push_str(" across ");
    push_dec(&mut c, o.transparent.accounts);
    c.push_str(" accounts");
    lines.push(c);
    if o.report.reorgs_recovered > 0 {
        let mut d: String = "reorgs: ".to_owned();
        push_dec(&mut d, o.report.reorgs_recovered);
        d.push_str(" recovered");
        lines.push(d);
    }
    lines
}

/// The time that the persist lane ran beside the scan, from the time it was busy and the
/// time the scan waited for it.
pub fn persist_overlap(busy: u128, wait: u128) -> (r: u128)
    ensures
        r == if busy > wait {
            (busy - wait) as u128
        } else {
            0
        },
{
    if busy > wait {
        busy - wait
    } else {
        0
    }
}

/// Where a balance comes from.
#[derive(Debug, Clone, Copy, PartialEq, Eq, Structural)]
pub enum BalanceSource {
    /// The sum over reconciled transactions, while the wallet recovers.
    Reconciled,
    /// The wallet's own summary.
    Summary,
}

/// The source of the balances that are shown: a wallet that recovers shows what is
/// reconciled.
pub fn balance_source(s: &FfiSlipstreamSnapshot) -> (r: BalanceSource)
    ensures
        r == if s.is_recovering == 1 {
            BalanceSource::Reconciled
        } else {
            BalanceSource::Summary
        },
{
    if s.is_recovering == 1 {
        BalanceSource::Reconciled
    } else {
        BalanceSource::Summary
    }
}

/// The balance of an account.
#[derive(Debug)]
pub struct Balance {
    /// The start of the account's id.
    pub account: String,
    pub zats: i64,
}

/// A source in words.
pub open spec fn source_text(source: BalanceSource) -> Seq<char> {
    match source {
        BalanceSource::Reconciled => "Σ reconciled (recovering)"@,
        BalanceSource::Summary => "upstream summary"@,
    }
}

/// One balance in words.
pub open spec fn balance_text(b: Balance, source: BalanceSource) -> Seq<char> {
    b.account@ + ": "@ + zec_text(b.zats) + " ZEC ["@ + source_text(source) + "]"@
}

/// Balances in words, separated by bars.
pub open spec fn balances_joined(bs: Seq<Balance>, source: BalanceSource) -> Seq<char>
    decreases bs.len(),
{
    if bs.len() == 0 {
        Seq::empty()
    } else if bs.len() == 1 {
        balance_text(bs[0], source)
    } else {
        balances_joined(bs.drop_last(), source) + " | "@ + balance_text(bs.last(), source)
    }
}

fn push_balance(out: &mut String, b: &Balance, source: BalanceSource)
    ensures
        final(out)@ == old(out)@ + balance_text(*b, source),
{
    let ghost before = out@;
    out.push_str(b.account.as_str());
    out.push_str(": ");
    let z: String = zec_display(b.zats);
    out.push_str(z.as_str());
    out.push_str(" ZEC [");
    match source {
        BalanceSource::Reconciled => {
            out.push_str("Σ reconciled (recovering)");
        },
        BalanceSource::Summary => {
            out.push_str("upstream summary");
        },
    }
    out.push_str("]");
    assert(out@ =~= before + balance_text(*b, source));
}

/// What is shown of balances.
pub open spec fn balances_text(bs: Seq<Balance>, source: BalanceSource) -> Seq<char> {
    if bs.len() == 0 {
        "balance: (none yet)"@
    } else {
        balances_joined(bs, source)
    }
}

/// What is shown of balances.
pub fn balances_line(bs: &Vec<Balance>, source: BalanceSource) -> (r: String)
    ensures
        r@ == balances_text(bs@, source),
{
    if bs.len() == 0 {
        return "balance: (none yet)".to_owned();
    }
    let mut s: String = String::new();
    push_balance(&mut s, &bs[0], source);
    let mut i: usize = 1;
    assert(bs@.take(1)[0] == bs@[0]);
    assert(s@ =~= balances_joined(bs@.take(1), source));
    while i < bs.len()
        invariant
            1 <= i <= bs@.len(),
            s@ == balances_joined(bs@.take(i as int), source),
        decreases bs@.len() - i,
    {
        let ghost before = s@;
        s.push_str(" | ");
        push_balance(&mut s, &bs[i], source);
        assert(bs@.take(i + 1).drop_last() =~= bs@.take(i as int));
        assert(s@ =~= before + " | "@ + balance_text(bs@[i as int], source));
        i = i + 1;
    }
    assert(bs@.take(bs@.len() as int) =~= bs@);
    s
}

/// The name of a snapshot's state.
pub open spec fn state_text(state: u8) -> Seq<char> {
    match state {
        0 => "idle"@,
        1 => "syncing"@,
        2 => "error"@,
        3 => "done"@,
        _ => "?"@,
    }
}

/// The name of a snapshot's state.
pub fn state_name(state: u8) -> (r: &'static str)
    ensures
        r@ == state_text(state),
{
    match state {
        0 => "idle",
        1 => "syncing",
        2 => "error",
        3 => "done",
        _ => "?",
    }
}

/// The line that a watch prints.
pub open spec fn watch_text(
    s: FfiSlipstreamSnapshot,
    visible: i64,
    balances: Seq<char>,
) -> Seq<char> {
    "["@ + state_text(s.state) + "] "@ + dec(s.progress_permille as nat) + "‰ | recovering: "@
        + (if s.is_recovering == 1 {
        "true"@
    } else {
        "false"@
    }) + " | stalled: "@ + dec(s.stalled_seconds as nat) + "s | scanned "@ + dec(
        s.scanned_blocks as nat,
    ) + "/"@ + dec(s.pass_total_blocks as nat) + " | tip "@ + dec(s.chain_tip as nat)
        + " | visible txs: "@ + signed_dec(visible as int) + " | "@ + balances
}

/// The line that a watch prints: the snapshot, how many transactions are visible, which
/// is -1 where that is unknown, and the balances.
pub fn watch_line(s: &FfiSlipstreamSnapshot, visible: i64, balances: &str) -> (r: String)
    ensures
        r@ == watch_text(*s, visible, balances@),
{
    let mut out: String = "[".to_owned();
    out.push_str(state_name(s.state));
    out.push_str("] ");
    push_dec(&mut out, s.progress_permille as u64);
    out.push_str("‰ | recovering: ");
    if s.is_recovering == 1 {
        out.push_str("true");
    } else {
        out.push_str("false");
    }
    out.push_str(" | stalled: ");
    push_dec(&mut out, s.stalled_seconds as u64);
    out.push_str("s | scanned ");
    push_dec(&mut out, s.scanned_blocks);
    out.push_str("/");
    push_dec(&mut out, s.pass_total_blocks);
    out.push_str(" | tip ");
    push_dec(&mut out, s.chain_tip);
    out.push_str(" | visible txs: ");
    push_signed(&mut out, visible);
    out.push_str(" | ");
    out.push_str(balances);
    out
}

/// A count as a signed number, held at the largest; -1 where it is unknown.
pub fn shown_count(count: Option<u64>) -> (r: i64)
    ensures
        r == match count {
            None => -1i64,
            Some(n) => if n > i64::MAX {
                i64::MAX
            } else {
                n as i64
            },
        },
{
    match count {
        None => -1,
        Some(n) => if n > i64::MAX as u64 {
            i64::MAX
        } else {
            n as i64
        },
    }
}

/// Milliseconds between two lines of a watch: as asked for, but at least 200.
pub fn watch_interval(interval_ms: u64) -> (r: u64)
    ensures
        r == if interval_ms < 200 {
            200
        } else {
            interval_ms
        },
{
    if interval_ms < 200 {
        200
    } else {
        interval_ms
    }
}

/// The tags of events and the numbers of states have their names, and others none.
pub proof fn law_names_of_tags_and_states(n: u8)
    ensures
        tag_text(1) == "SyncStarted"@,
        tag_text(2) == "SyncProgress"@,
        tag_text(3) == "SyncDone"@,
        tag_text(4) == "SyncError"@,
        tag_text(5) == "FoundTransactions"@,
        n == 0 || n > 5 ==> tag_text(n) == "Unknown"@,
        state_text(0) == "idle"@,
        state_text(1) == "syncing"@,
        state_text(2) == "error"@,
        state_text(3) == "done"@,
        n > 3 ==> state_text(n) == "?"@,
{
}

/// An amount is written as whole ZEC, a point and eight digits of zatoshis; one below zero as
/// its opposite behind a minus sign.
pub proof fn law_amounts_have_eight_decimals(zat: i64, whole: nat, rest: nat)
    requires
        rest < 100_000_000,
        whole * 100_000_000 + rest == if zat < 0 {
            -zat
        } else {
            zat as int
        },
    ensures
        magnitude(zat) == whole * 100_000_000 + rest,
        zat >= 0 ==> zec_text(zat) == dec(whole) + seq!['.'] + dec_padded(rest, 8),
        zat < 0 ==> zec_text(zat) == seq!['-'] + dec(whole) + seq!['.'] + dec_padded(rest, 8),
{
    reveal_strlit("");
    reveal_strlit("-");
    reveal_strlit(".");
    assert("."@ =~= seq!['.']);
    assert("-"@ =~= seq!['-']);
    let m = magnitude(zat);
    assert(m / 100_000_000 == whole && m % 100_000_000 == rest);
    if zat >= 0 {
        assert(zec_text(zat) =~= dec(whole) + seq!['.'] + dec_padded(rest, 8));
    } else {
        assert(zec_text(zat) =~= seq!['-'] + dec(whole) + seq!['.'] + dec_padded(rest, 8));
    }
}

/// Balances are shown one after the other with bars between them, each with its account, its
/// amount and where it comes from; where there are none, that is said.
pub proof fn law_every_balance_is_shown(bs: Seq<Balance>, b: Balance, source: BalanceSource)
    ensures
        balances_text(Seq::empty(), source) == "balance: (none yet)"@,
        balances_text(seq![b], source) == balance_text(b, source),
        bs.len() > 0 ==> balances_text(bs.push(b), source) == balances_text(bs, source)
            + seq![' ', '|', ' '] + balance_text(b, source),
        balance_text(b, source) == b.account@ + ": "@ + zec_text(b.zats) + " ZEC ["@ + source_text(
            source,
        ) + "]"@,
        source_text(BalanceSource::Summary) == "upstream summary"@,
        source_text(BalanceSource::Reconciled) == "Σ reconciled (recovering)"@,
{
    reveal_strlit(" | ");
    assert(" | "@ =~= seq![' ', '|', ' ']);
    assert(bs.push(b).drop_last() =~= bs);
}

/// The line of a watch shows of a snapshot its state, its progress, whether it recovers, how
/// long it has stalled, the scanned blocks of those of the pass, and the tip; then the visible
/// transactions and the balances.
pub proof fn law_watch_shows_the_snapshot(
    s: FfiSlipstreamSnapshot,
    visible: i64,
    balances: Seq<char>,
)
    ensures
        watch_text(s, visible, balances) == "["@ + state_text(s.state) + "] "@ + dec(
            s.progress_permille as nat,
        ) + "‰ | recovering: "@ + (if s.is_recovering == 1 {
            "true"@
        } else {
            "false"@
        }) + " | stalled: "@ + dec(s.stalled_seconds as nat) + "s | scanned "@ + dec(
            s.scanned_blocks as nat,
        ) + "/"@ + dec(s.pass_total_blocks as nat) + " | tip "@ + dec(s.chain_tip as nat)
            + " | visible txs: "@ + signed_dec(visible as int) + " | "@ + balances,
{
}

} // verus!
