//! Statistics snapshots of the monitor.
use vstd::prelude::*;

use crate::store::{
    burst_consumed, counts_of, lemma_categories_partition, pending_burst,
    CategoryCounts, LogManager,
};

verus! {

/// Shares are given in hundredths of a percent: this is 100%.
pub const SHARE_SCALE: u64 = 10000;

/// The share of `count` in `total` in hundredths of a percent, rounded down;
/// zero when there is nothing to share.
pub open spec fn share_of(count: nat, total: nat) -> nat {
    if total == 0 {
        0
    } else {
        count * SHARE_SCALE as nat / total
    }
}

/// The share of `count` in `total`, in hundredths of a percent, rounded down.
/// With `total` zero there is no data yet and the share is zero.
pub fn share(count: usize, total: usize) -> (r: u64)
    requires
        count <= total,
    ensures
        r == share_of(count as nat, total as nat),
        r <= SHARE_SCALE,
{
    if total == 0 {
        0
    } else {
        let c = count as u128;
        let t = total as u128;
        proof {
            vstd::arithmetic::mul::lemma_mul_inequality(c as int, t as int, 10000);
            vstd::arithmetic::mul::lemma_mul_inequality(t as int, 0x1_0000_0000_0000_0000, 10000);
            vstd::arithmetic::div_mod::lemma_div_is_ordered(
                (c * 10000) as int,
                (t * 10000) as int,
                t as int,
            );
            vstd::arithmetic::div_mod::lemma_div_multiples_vanish(10000, t as int);
        }
        (c * 10000 / t) as u64
    }
}

/// What is left when the share of `count` is rounded down, in units of
/// `1 / total` hundredths of a percent.
pub open spec fn share_rest(count: nat, total: nat) -> nat {
    if total == 0 {
        0
    } else {
        (count * SHARE_SCALE as nat) % total
    }
}

/// By how many hundredths the three rounded-down shares fall short of the
/// rounded-down share of the three categories together.
pub open spec fn shortfall(e: nat, d: nat, i: nat, total: nat) -> int {
    share_of(e + d + i, total) - (share_of(e, total) + share_of(d, total) + share_of(i, total))
}

/// The category at position `px` with rest `rx` comes before the one at `py`
/// with rest `ry` when the shortfall is handed out: larger rests first, and
/// on equal rests the earlier position.
pub open spec fn comes_before(rx: nat, px: int, ry: nat, py: int) -> bool {
    rx > ry || (rx == ry && px < py)
}

/// How many of the other two categories come before the one at `px`.
pub open spec fn rank(rx: nat, px: int, ry: nat, py: int, rz: nat, pz: int) -> int {
    (if comes_before(ry, py, rx, px) {
        1int
    } else {
        0
    }) + (if comes_before(rz, pz, rx, px) {
        1int
    } else {
        0
    })
}

/// One hundredth more when the category's rank is within the shortfall.
pub open spec fn bonus(rank: int, short: int) -> nat {
    if rank < short {
        1
    } else {
        0
    }
}

/// The shares of the error, debug and info categories in hundredths of a
/// percent, by largest remainder: each is rounded down, and the hundredths
/// that the three then fall short of their joint share go one each to the
/// categories with the largest rests (error, then debug, then info on ties).
pub open spec fn rounded_shares(e: nat, d: nat, i: nat, total: nat) -> (nat, nat, nat) {
    let re = share_rest(e, total);
    let rd = share_rest(d, total);
    let ri = share_rest(i, total);
    let k = shortfall(e, d, i, total);
    (
        share_of(e, total) + bonus(rank(re, 0, rd, 1, ri, 2), k),
        share_of(d, total) + bonus(rank(rd, 1, re, 0, ri, 2), k),
        share_of(i, total) + bonus(rank(ri, 2, re, 0, rd, 1), k),
    )
}

/// `s` hundredths of a percent is within one hundredth of the exact share of
/// `count` in `total`.
pub open spec fn within_one(s: nat, count: nat, total: nat) -> bool {
    let exact = count * (SHARE_SCALE as nat);
    total == 0 || (s * total <= exact + total && exact < (s + 1) * total)
}

/// The rounded-down share, or one hundredth more, is within one hundredth
/// of the exact share.
proof fn lemma_near_floor(count: nat, total: nat, s: nat)
    requires
        total > 0,
        s == share_of(count, total) || s == share_of(count, total) + 1,
    ensures
        within_one(s, count, total),
{
    let t = total as int;
    let c = (count * 10000) as int;
    vstd::arithmetic::div_mod::lemma_fundamental_div_mod(c, t);
    vstd::arithmetic::div_mod::lemma_mod_bound(c, t);
    let qq = c / t;
    let rr = c % t;
    assert(s * t <= c + t && c < (s + 1) * t) by (nonlinear_arith)
        requires
            t > 0,
            c == t * qq + rr,
            0 <= rr < t,
            s == qq || s == qq + 1,
    ;
}

/// Rounding by largest remainder keeps each share within one hundredth of
/// the exact one and makes the three add up to their joint rounded-down
/// share: to 100% exactly when the three categories hold every entry.
pub proof fn lemma_rounded_shares(e: nat, d: nat, i: nat, total: nat)
    requires
        e + d + i <= total,
    ensures
        ({
            let (se, sd, si) = rounded_shares(e, d, i, total);
            &&& se + sd + si == share_of(e + d + i, total)
            &&& within_one(se, e, total)
            &&& within_one(sd, d, total)
            &&& within_one(si, i, total)
            &&& total == 0 ==> se == 0 && sd == 0 && si == 0
            &&& e + d + i == total > 0 ==> se + sd + si == SHARE_SCALE
        }),
{
    if total > 0 {
        let t = total as int;
        let (xe, xd, xi) = ((e * 10000) as int, (d * 10000) as int, (i * 10000) as int);
        let x = ((e + d + i) * 10000) as int;
        vstd::arithmetic::div_mod::lemma_fundamental_div_mod(xe, t);
        vstd::arithmetic::div_mod::lemma_fundamental_div_mod(xd, t);
        vstd::arithmetic::div_mod::lemma_fundamental_div_mod(xi, t);
        vstd::arithmetic::div_mod::lemma_fundamental_div_mod(x, t);
        vstd::arithmetic::div_mod::lemma_mod_bound(xe, t);
        vstd::arithmetic::div_mod::lemma_mod_bound(xd, t);
        vstd::arithmetic::div_mod::lemma_mod_bound(xi, t);
        vstd::arithmetic::div_mod::lemma_mod_bound(x, t);
        let (qe, qd, qi, q) = (xe / t, xd / t, xi / t, x / t);
        let (re, rd, ri, r) = (xe % t, xd % t, xi % t, x % t);
        assert(x == xe + xd + xi) by (nonlinear_arith)
            requires
                x == ((e + d + i) * 10000) as int,
                xe == (e * 10000) as int,
                xd == (d * 10000) as int,
                xi == (i * 10000) as int,
        ;
        assert(q - (qe + qd + qi) >= 0 && q - (qe + qd + qi) <= 2) by (nonlinear_arith)
            requires
                t > 0,
                xe == t * qe + re,
                xd == t * qd + rd,
                xi == t * qi + ri,
                x == t * q + r,
                x == xe + xd + xi,
                0 <= re < t,
                0 <= rd < t,
                0 <= ri < t,
                0 <= r < t,
        ;
        let (se, sd, si) = rounded_shares(e, d, i, total);
        lemma_near_floor(e, total, se);
        lemma_near_floor(d, total, sd);
        lemma_near_floor(i, total, si);
        if e + d + i == total {
            vstd::arithmetic::div_mod::lemma_div_multiples_vanish(10000, t);
            assert(x == t * 10000) by (nonlinear_arith)
                requires
                    x == ((e + d + i) * 10000) as int,
                    e + d + i == t,
            ;
        }
    }
}

/// The three shares of `rounded_shares`, computed.
pub fn shares(e: usize, d: usize, i: usize, total: usize) -> (r: (u64, u64, u64))
    requires
        e + d + i <= total,
    ensures
        (r.0 as nat, r.1 as nat, r.2 as nat) == rounded_shares(
            e as nat,
            d as nat,
            i as nat,
            total as nat,
        ),
        r.0 + r.1 + r.2 == share_of((e + d + i) as nat, total as nat),
        e + d + i == total > 0 ==> r.0 + r.1 + r.2 == SHARE_SCALE,
{
    proof {
        lemma_rounded_shares(e as nat, d as nat, i as nat, total as nat);
    }
    if total == 0 {
        return (0, 0, 0);
    }
    let qe = share(e, total);
    let qd = share(d, total);
    let qi = share(i, total);
    let joint = share(e + d + i, total);
    let t = total as u128;
    let re = (e as u128) * 10000 % t;
    let rd = (d as u128) * 10000 % t;
    let ri = (i as u128) * 10000 % t;
    let k = joint - (qe + qd + qi);
    let rank_e: u64 = (if rd > re { 1 } else { 0 }) + (if ri > re { 1 } else { 0 });
    let rank_d: u64 = (if re >= rd { 1 } else { 0 }) + (if ri > rd { 1 } else { 0 });
    let rank_i: u64 = (if re >= ri { 1 } else { 0 }) + (if rd >= ri { 1 } else { 0 });
    (
        qe + if rank_e < k { 1 } else { 0 },
        qd + if rank_d < k { 1 } else { 0 },
        qi + if rank_i < k { 1 } else { 0 },
    )
}

/// A statistics snapshot of the monitor.
#[derive(Clone, Copy, Debug)]
pub struct Statistics {
    pub entries_processed: usize,
    pub current_rate: usize,
    pub peak_rate: usize,
    pub window_secs: u64,
    pub counts: CategoryCounts,
    /// Shares of all entries, in hundredths of a percent, rounded by
    /// largest remainder.
    pub error_share: u64,
    pub debug_share: u64,
    pub info_share: u64,
    /// The rate of a burst raised since the last snapshot.
    pub burst: Option<usize>,
    /// The error share is strictly the largest of the three.
    pub high_error_rate: bool,
}

impl LogManager {
    /// Takes a snapshot for a report over a window of `window` seconds with
    /// the given peak rate. A pending burst is taken into the snapshot.
    pub fn print_statistics(&mut self, window: u64, peak_rate: usize) -> (r: Statistics)
        requires
            old(self).wf(),
        ensures
            final(self).wf(),
            final(self)@ == burst_consumed(old(self)@),
            r.entries_processed == old(self)@.entries.len(),
            r.current_rate == old(self)@.last_rate,
            r.peak_rate == peak_rate,
            r.window_secs == window,
            counts_of(r.counts, old(self)@.entries),
            (r.error_share as nat, r.debug_share as nat, r.info_share as nat) == rounded_shares(
                r.counts.error as nat,
                r.counts.debug as nat,
                r.counts.info as nat,
                r.entries_processed as nat,
            ),
            within_one(r.error_share as nat, r.counts.error as nat, r.entries_processed as nat),
            within_one(r.debug_share as nat, r.counts.debug as nat, r.entries_processed as nat),
            within_one(r.info_share as nat, r.counts.info as nat, r.entries_processed as nat),
            r.entries_processed > 0 && r.counts.uncategorized == 0 ==> r.error_share
                + r.debug_share + r.info_share == SHARE_SCALE,
            r.burst matches Some(rate) ==> pending_burst(old(self)@) == Some(rate as nat),
            r.burst is None ==> pending_burst(old(self)@) is None,
            r.high_error_rate == (r.counts.error > r.counts.debug && r.counts.error
                > r.counts.info),
    {
        let total = self.entires_processed();
        let counts = self.category_breakdown();
        proof {
            lemma_categories_partition(self@.entries);
        }
        proof {
            lemma_rounded_shares(
                counts.error as nat,
                counts.debug as nat,
                counts.info as nat,
                total as nat,
            );
        }
        let (error_share, debug_share, info_share) = shares(
            counts.error,
            counts.debug,
            counts.info,
            total,
        );
        let current_rate = self.last_curr_rate();
        let burst = self.detect_burst();
        Statistics {
            entries_processed: total,
            current_rate,
            peak_rate,
            window_secs: window,
            counts,
            error_share,
            debug_share,
            info_share,
            burst,
            high_error_rate: counts.error > counts.debug && counts.error > counts.info,
        }
    }
}

} // verus!
