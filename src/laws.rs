//! Laws relating the monitor's operations.
use vstd::prelude::*;

use crate::entry::{LogView, Timestamp, TypeOfLog};
use crate::parser::{error_word, parsed_entry, spells, MIN_LINE_LEN, WIDE_BODY_START};
use crate::report::{lemma_rounded_shares, rounded_shares, within_one, SHARE_SCALE};
use crate::store::{
    burst_consumed, count_category, ingest, lemma_categories_partition, pending_burst, sampled,
    weight_of, MonitorView, BURST_THRESHOLD,
};

verus! {

/// A line whose label spells `error` in any case parses as an `Error` entry
/// whose message is the text after the label and its separator.
pub proof fn lemma_error_label_parses(line: Seq<char>, instant: Option<(i64, u32)>)
    requires
        line.len() >= MIN_LINE_LEN,
        spells(line.subrange(23, 28), error_word()),
    ensures
        parsed_entry(line, instant).log_type == TypeOfLog::Error,
        line.len() >= WIDE_BODY_START ==> parsed_entry(line, instant).message == line.subrange(
            WIDE_BODY_START as int,
            line.len() as int,
        ),
{
}

/// Ingesting the same entry twice stores it once: the second time the count
/// of entries stays and the message's weight rises by one.
pub proof fn lemma_duplicate_ingest_folded(v: MonitorView, log: LogView)
    requires
        weight_of(ingest(v, log).weights, log.message) < u64::MAX,
    ensures
        ingest(ingest(v, log), log).entries == ingest(v, log).entries,
        weight_of(ingest(ingest(v, log), log).weights, log.message) == weight_of(
            ingest(v, log).weights,
            log.message,
        ) + 1,
{
    let v1 = ingest(v, log);
    if !v.entries.contains(log) {
        assert(v1.entries[v.entries.len() as int] == log);
    }
    assert(v1.entries.contains(log));
}

/// Entries that differ only in their timestamps are both stored.
pub proof fn lemma_distinct_timestamps_both_stored(
    v: MonitorView,
    message: Seq<char>,
    log_type: TypeOfLog,
    first: Timestamp,
    second: Timestamp,
)
    requires
        first != second,
    ensures
        ({
            let a = LogView { message, log_type, timestamp: first };
            let b = LogView { message, log_type, timestamp: second };
            let v2 = ingest(ingest(v, a), b);
            v2.entries.contains(a) && v2.entries.contains(b)
        }),
{
    let a = LogView { message, log_type, timestamp: first };
    let b = LogView { message, log_type, timestamp: second };
    let v1 = ingest(v, a);
    if !v.entries.contains(a) {
        assert(v1.entries[v.entries.len() as int] == a);
    }
    assert(v1.entries.contains(a));
    let v2 = ingest(v1, b);
    if !v1.entries.contains(b) {
        assert(v2.entries[v1.entries.len() as int] == b);
        let k = choose|k: int| 0 <= k < v1.entries.len() && v1.entries[k] == a;
        assert(v2.entries[k] == a);
    }
}

/// The state after ingesting `logs` one after another.
pub open spec fn ingest_all(v: MonitorView, logs: Seq<LogView>) -> MonitorView
    decreases logs.len(),
{
    if logs.len() == 0 {
        v
    } else {
        ingest(ingest_all(v, logs.drop_last()), logs.last())
    }
}

/// A sample whose quantum began at count `prev`, taken after `n` new distinct
/// entries came in, reports exactly `n`.
pub proof fn lemma_rate_counts_new_entries(v: MonitorView, logs: Seq<LogView>)
    requires
        logs.no_duplicates(),
        forall|i: int| 0 <= i < logs.len() ==> !v.entries.contains(#[trigger] logs[i]),
    ensures
        sampled(ingest_all(v, logs), v.entries.len()).last_rate == logs.len(),
    decreases logs.len(),
{
    lemma_ingest_all_appends(v, logs);
}

proof fn lemma_ingest_all_appends(v: MonitorView, logs: Seq<LogView>)
    requires
        logs.no_duplicates(),
        forall|i: int| 0 <= i < logs.len() ==> !v.entries.contains(#[trigger] logs[i]),
    ensures
        ingest_all(v, logs).entries == v.entries + logs,
    decreases logs.len(),
{
    if logs.len() > 0 {
        let init = logs.drop_last();
        assert forall|i: int| 0 <= i < init.len() implies !v.entries.contains(#[trigger] init[i]) by {
            assert(init[i] == logs[i]);
        }
        lemma_ingest_all_appends(v, init);
        let before = ingest_all(v, init);
        let l = logs.last();
        if before.entries.contains(l) {
            let k = choose|k: int| 0 <= k < before.entries.len() && before.entries[k] == l;
            if k < v.entries.len() {
                assert(v.entries[k] == l);
            } else {
                assert(init[k - v.entries.len()] == logs[k - v.entries.len()]);
            }
        }
        assert(v.entries + logs =~= (v.entries + init).push(l));
    } else {
        assert(v.entries + logs =~= v.entries);
    }
}

/// A sample above the burst threshold is reported exactly once: taking the
/// burst yields its rate, and taking it again yields nothing.
pub proof fn lemma_burst_taken_once(v: MonitorView, prev: nat)
    requires
        prev <= v.entries.len(),
        v.entries.len() - prev > BURST_THRESHOLD,
    ensures
        pending_burst(sampled(v, prev)) == Some((v.entries.len() - prev) as nat),
        pending_burst(burst_consumed(sampled(v, prev))) is None,
{
}

/// With no entries every share is zero. With entries, none uncategorized, the
/// three rounded shares of the error, debug and info categories add up to
/// exactly 100%, each within one hundredth of a percent of its exact value.
pub proof fn lemma_shares_sum(entries: Seq<LogView>)
    ensures
        ({
            let t = entries.len();
            let e = count_category(entries, TypeOfLog::Error);
            let d = count_category(entries, TypeOfLog::Debug);
            let i = count_category(entries, TypeOfLog::Info);
            let (se, sd, si) = rounded_shares(e, d, i, t);
            &&& t == 0 ==> se == 0 && sd == 0 && si == 0
            &&& t > 0 && count_category(entries, TypeOfLog::Uncategorized) == 0 ==> {
                &&& se + sd + si == SHARE_SCALE
                &&& within_one(se, e, t) && within_one(sd, d, t) && within_one(si, i, t)
            }
        }),
{
    lemma_categories_partition(entries);
    lemma_rounded_shares(
        count_category(entries, TypeOfLog::Error),
        count_category(entries, TypeOfLog::Debug),
        count_category(entries, TypeOfLog::Info),
        entries.len(),
    );
}

/// Ingesting an entry that is already stored appends nothing, raises its
/// message's weight by one and leaves every other weight as it was.
pub proof fn lemma_stored_entry_folded(v: MonitorView, log: LogView)
    requires
        v.entries.contains(log),
        weight_of(v.weights, log.message) < u64::MAX,
    ensures
        ingest(v, log).entries == v.entries,
        weight_of(ingest(v, log).weights, log.message) == weight_of(v.weights, log.message) + 1,
        forall|m: Seq<char>|
            m != log.message ==> #[trigger] weight_of(ingest(v, log).weights, m) == weight_of(
                v.weights,
                m,
            ),
{
}

/// Ingesting an entry that is not stored, such as one that differs from a
/// stored entry only in its timestamp, appends it and leaves every weight as
/// it was.
pub proof fn lemma_new_entry_appended(v: MonitorView, log: LogView)
    requires
        !v.entries.contains(log),
    ensures
        ingest(v, log).entries == v.entries.push(log),
        ingest(v, log).weights == v.weights,
{
}

/// One thing that happens to the monitor between two reports.
pub enum Step {
    Ingest(LogView),
    /// A sample whose quantum began at the given count.
    Sample(nat),
}

pub open spec fn apply_step(v: MonitorView, s: Step) -> MonitorView {
    match s {
        Step::Ingest(log) => ingest(v, log),
        Step::Sample(prev) => sampled(v, prev),
    }
}

/// The step leaves the burst flag alone: an ingestion, or a sample at or
/// below the burst threshold.
pub open spec fn quiet(v: MonitorView, s: Step) -> bool {
    match s {
        Step::Ingest(_) => true,
        Step::Sample(prev) => prev <= v.entries.len() && v.entries.len() - prev
            <= BURST_THRESHOLD,
    }
}

/// The state after the steps, in order.
pub open spec fn run(v: MonitorView, steps: Seq<Step>) -> MonitorView
    decreases steps.len(),
{
    if steps.len() == 0 {
        v
    } else {
        run(apply_step(v, steps[0]), steps.drop_first())
    }
}

/// Every step is quiet in the state it is taken in.
pub open spec fn all_quiet(v: MonitorView, steps: Seq<Step>) -> bool
    decreases steps.len(),
{
    steps.len() == 0 || (quiet(v, steps[0]) && all_quiet(
        apply_step(v, steps[0]),
        steps.drop_first(),
    ))
}

/// Quiet steps leave the burst flag as it was.
pub proof fn lemma_quiet_steps_keep_burst(v: MonitorView, steps: Seq<Step>)
    requires
        all_quiet(v, steps),
    ensures
        run(v, steps).burst == v.burst,
    decreases steps.len(),
{
    if steps.len() > 0 {
        lemma_quiet_steps_keep_burst(apply_step(v, steps[0]), steps.drop_first());
    }
}

/// Once the burst was taken, taking it again yields nothing until a sample
/// exceeds the threshold, whatever ingestions and quiet samples come between.
pub proof fn lemma_burst_stays_taken(v: MonitorView, steps: Seq<Step>)
    requires
        all_quiet(burst_consumed(v), steps),
    ensures
        pending_burst(run(burst_consumed(v), steps)) is None,
{
    lemma_quiet_steps_keep_burst(burst_consumed(v), steps);
}

/// After a sample above the threshold, its rate stays pending through any
/// ingestions and quiet samples until it is taken.
pub proof fn lemma_burst_pending_until_taken(v: MonitorView, prev: nat, steps: Seq<Step>)
    requires
        prev <= v.entries.len(),
        v.entries.len() - prev > BURST_THRESHOLD,
        all_quiet(sampled(v, prev), steps),
    ensures
        pending_burst(run(sampled(v, prev), steps)) == Some((v.entries.len() - prev) as nat),
{
    lemma_quiet_steps_keep_burst(sampled(v, prev), steps);
}

} // verus!
