//! Choice of the MP4 samples to decode for a frame at a given time: the sample
//! that holds the time, the sync sample (key frame) to start decoding from, and the
//! parameter sets to feed the decoder first.
use vstd::prelude::*;
use crate::annexb::start_code;

verus! {

/// One run of the time-to-sample table (`stts`): `sample_count` consecutive samples,
/// each lasting `sample_delta` ticks.
#[derive(Clone, Copy, Debug, PartialEq, Eq)]
pub struct TimeToSampleEntry {
    pub sample_count: u32,
    pub sample_delta: u32,
}

/// Walks `count` samples of length `delta` from `(tick, id)`, stopping before the first
/// sample that would end after `target`. Returns the new `(tick, id)`.
pub open spec fn advance_run(tick: int, id: int, count: nat, delta: int, target: int) -> (int, int)
    decreases count,
{
    if count == 0 {
        (tick, id)
    } else if tick + delta > target {
        (tick, id)
    } else {
        advance_run(tick + delta, id + 1, (count - 1) as nat, delta, target)
    }
}

/// Walks every run of the table in order, each from where the previous one stopped.
/// A run stops at its first sample that would end after `target`, and the walk goes
/// on with the next run.
pub open spec fn walk_table(entries: Seq<TimeToSampleEntry>, tick: int, id: int, target: int) -> (
    int,
    int,
)
    decreases entries.len(),
{
    if entries.len() == 0 {
        (tick, id)
    } else {
        let r = advance_run(
            tick,
            id,
            entries[0].sample_count as nat,
            entries[0].sample_delta as int,
            target,
        );
        walk_table(entries.drop_first(), r.0, r.1, target)
    }
}

/// The (1-based) id of the sample to show at `target_tick`: one plus the number of
/// samples the walk of the table counts.
pub open spec fn spec_target_sample(entries: Seq<TimeToSampleEntry>, target_tick: int) -> int {
    walk_table(entries, 0, 1, target_tick).1
}

proof fn lemma_advance_run_grows(tick: int, id: int, count: nat, delta: int, target: int)
    requires
        delta >= 0,
        tick <= target,
    ensures
        advance_run(tick, id, count, delta, target).1 >= id,
        advance_run(tick, id, count, delta, target).0 <= target,
    decreases count,
{
    if count > 0 && tick + delta <= target {
        lemma_advance_run_grows(tick + delta, id + 1, (count - 1) as nat, delta, target);
    }
}

proof fn lemma_walk_table_grows(entries: Seq<TimeToSampleEntry>, tick: int, id: int, target: int)
    requires
        tick <= target,
    ensures
        walk_table(entries, tick, id, target).1 >= id,
    decreases entries.len(),
{
    if entries.len() > 0 {
        let r = advance_run(
            tick,
            id,
            entries[0].sample_count as nat,
            entries[0].sample_delta as int,
            target,
        );
        lemma_advance_run_grows(
            tick,
            id,
            entries[0].sample_count as nat,
            entries[0].sample_delta as int,
            target,
        );
        lemma_walk_table_grows(entries.drop_first(), r.0, r.1, target);
    }
}

/// The sample to show at `target_tick` is never before the first sample.
pub proof fn lemma_target_sample_positive(entries: Seq<TimeToSampleEntry>, target_tick: u64)
    ensures
        spec_target_sample(entries, target_tick as int) >= 1,
{
    lemma_walk_table_grows(entries, 0, 1, target_tick as int);
}

/// Id of the sample that holds `target_tick`, by the walk of the time-to-sample table;
/// `None` where that id does not fit in the `u32` that MP4 sample ids are.
pub fn target_sample_id(entries: &Vec<TimeToSampleEntry>, target_tick: u64) -> (r: Option<u32>)
    ensures
        r == (if spec_target_sample(entries@, target_tick as int) <= u32::MAX {
            Some(spec_target_sample(entries@, target_tick as int) as u32)
        } else {
            None::<u32>
        }),
{
    let ghost goal = spec_target_sample(entries@, target_tick as int);
    let mut tick: u64 = 0;
    let mut id: u64 = 1;
    let mut e: usize = 0;
    assert(entries@.skip(0) =~= entries@);
    while e < entries.len()
        invariant
            e <= entries@.len(),
            tick <= target_tick,
            1 <= id <= u32::MAX,
            walk_table(entries@.skip(e as int), tick as int, id as int, target_tick as int).1 == goal,
            goal == spec_target_sample(entries@, target_tick as int),
        decreases entries@.len() - e,
    {
        let count = entries[e].sample_count;
        let delta = entries[e].sample_delta;
        let ghost rest = entries@.skip(e as int);
        let ghost after = rest.drop_first();
        assert(rest[0] == entries@[e as int]);
        assert(after =~= entries@.skip(e + 1));
        let ghost start = advance_run(tick as int, id as int, count as nat, delta as int, target_tick as int);
        let mut j: u32 = 0;
        while j < count && (delta as u64) <= target_tick - tick
            invariant
                j <= count,
                tick <= target_tick,
                1 <= id <= u32::MAX,
                advance_run(tick as int, id as int, (count - j) as nat, delta as int, target_tick as int)
                    == start,
                walk_table(after, start.0, start.1, target_tick as int).1 == goal,
                goal == spec_target_sample(entries@, target_tick as int),
            decreases count - j,
        {
            let ghost old_tick = tick;
            let ghost old_id = id;
            tick = tick + delta as u64;
            assert(advance_run(tick as int, id + 1, (count - j - 1) as nat, delta as int, target_tick as int)
                == start);
            if id == u32::MAX as u64 {
                proof {
                    lemma_advance_run_grows(
                        tick as int,
                        id + 1,
                        (count - j - 1) as nat,
                        delta as int,
                        target_tick as int,
                    );
                    lemma_walk_table_grows(after, start.0, start.1, target_tick as int);
                }
                return None;
            }
            id = id + 1;
            j = j + 1;
        }
        assert(start.0 == tick && start.1 == id);
        e = e + 1;
    }
    Some(id as u32)
}

/// The sync sample to start decoding from: walking the sync-sample table in order while
/// its entries are at most `target`, the last entry seen; `current` where the first entry
/// is already past `target`.
pub open spec fn spec_sync_start(sync: Seq<u32>, target: u32, current: u32) -> u32
    decreases sync.len(),
{
    if sync.len() == 0 {
        current
    } else if sync[0] <= target {
        spec_sync_start(sync.drop_first(), target, sync[0])
    } else {
        current
    }
}

/// The sample to start decoding from so that sample `target` can be decoded: the last
/// sync sample of the table before the first entry past `target`, or the first sample
/// where there is no such entry or no table (every sample is then a sync sample).
pub open spec fn spec_start_sample(sync: Option<Seq<u32>>, target: u32) -> u32 {
    match sync {
        Some(s) => spec_sync_start(s, target, 1),
        None => 1,
    }
}

/// The start sample is never after the target sample, provided the target is not
/// before the first sample.
pub proof fn lemma_start_not_after_target(sync: Seq<u32>, target: u32, current: u32)
    requires
        current <= target,
    ensures
        spec_sync_start(sync, target, current) <= target,
    decreases sync.len(),
{
    if sync.len() > 0 && sync[0] <= target {
        lemma_start_not_after_target(sync.drop_first(), target, sync[0]);
    }
}

/// Id of the sample to start decoding from so that sample `target` can be decoded.
pub fn start_sample_id(sync: &Option<Vec<u32>>, target: u32) -> (r: u32)
    ensures
        r == spec_start_sample(
            match sync {
                Some(v) => Some(v@),
                None => None,
            },
            target,
        ),
        1 <= target ==> r <= target,
{
    match sync {
        None => 1,
        Some(entries) => {
            let mut start: u32 = 1;
            let mut i: usize = 0;
            assert(entries@.skip(0) =~= entries@);
            proof {
                if 1 <= target {
                    lemma_start_not_after_target(entries@, target, 1);
                }
            }
            while i < entries.len()
                invariant
                    i <= entries@.len(),
                    spec_sync_start(entries@.skip(i as int), target, start) == spec_sync_start(
                        entries@,
                        target,
                        1,
                    ),
                    1 <= target ==> spec_sync_start(entries@, target, 1) <= target,
                    spec_start_sample(
                        match sync {
                            Some(v) => Some(v@),
                            None => None,
                        },
                        target,
                    ) == spec_sync_start(entries@, target, 1),
                decreases entries@.len() - i,
            {
                let sync_id = entries[i];
                assert(entries@.skip(i as int)[0] == sync_id);
                assert(entries@.skip(i as int).drop_first() =~= entries@.skip(i + 1));
                if sync_id <= target {
                    start = sync_id;
                } else {
                    assert(spec_sync_start(entries@.skip(i as int), target, start) == start);
                    return start;
                }
                i = i + 1;
            }
            start
        },
    }
}

/// The parameter-set NAL units, each behind a start code, in order.
pub open spec fn spec_prefixed_units(units: Seq<Seq<u8>>) -> Seq<u8>
    decreases units.len(),
{
    if units.len() == 0 {
        seq![]
    } else {
        spec_prefixed_units(units.drop_last()) + start_code() + units.last()
    }
}

fn push_prefixed_units(out: &mut Vec<u8>, units: &Vec<Vec<u8>>)
    ensures
        final(out)@ == old(out)@ + spec_prefixed_units(units.deep_view()),
{
    let mut i: usize = 0;
    assert(units.deep_view().take(0) =~= Seq::<Seq<u8>>::empty());
    assert(out@ =~= old(out)@ + spec_prefixed_units(units.deep_view().take(0)));
    while i < units.len()
        invariant
            i <= units@.len(),
            out@ == old(out)@ + spec_prefixed_units(units.deep_view().take(i as int)),
        decreases units@.len() - i,
    {
        let unit = &units[i];
        out.push(0u8);
        out.push(0u8);
        out.push(0u8);
        out.push(1u8);
        let ghost mid = out@;
        let mut k: usize = 0;
        while k < unit.len()
            invariant
                k <= unit@.len(),
                out@ == mid + unit@.take(k as int),
            decreases unit@.len() - k,
        {
            out.push(unit[k]);
            k = k + 1;
            assert(unit@.take(k as int) =~= unit@.take(k - 1).push(unit@[k - 1]));
        }
        let ghost dv = units.deep_view();
        assert(dv.take(i + 1).drop_last() =~= dv.take(i as int));
        assert(dv.take(i + 1).last() == unit@);
        assert(unit@.take(k as int) =~= unit@);
        i = i + 1;
        assert(out@ =~= old(out)@ + spec_prefixed_units(dv.take(i as int)));
    }
    assert(units.deep_view().take(i as int) =~= units.deep_view());
}

/// The bytes that hand the decoder its configuration: every sequence parameter set,
/// then every picture parameter set, each behind the Annex-B start code.
pub fn parameter_sets_payload(sps: &Vec<Vec<u8>>, pps: &Vec<Vec<u8>>) -> (r: Vec<u8>)
    ensures
        r@ == spec_prefixed_units(sps.deep_view()) + spec_prefixed_units(pps.deep_view()),
{
    let mut out: Vec<u8> = Vec::new();
    push_prefixed_units(&mut out, sps);
    push_prefixed_units(&mut out, pps);
    assert(out@ =~= spec_prefixed_units(sps.deep_view()) + spec_prefixed_units(pps.deep_view()));
    out
}

/// The samples to decode for a frame are never an empty range: the start sample is at
/// most the target sample, and the target sample is at least the first one.
pub proof fn lemma_decode_range_not_empty(entries: Seq<TimeToSampleEntry>, target_tick: u64, sync: Option<Seq<u32>>)
    requires
        spec_target_sample(entries, target_tick as int) <= u32::MAX,
    ensures
        1 <= spec_target_sample(entries, target_tick as int),
        spec_start_sample(sync, spec_target_sample(entries, target_tick as int) as u32)
            <= spec_target_sample(entries, target_tick as int),
{
    lemma_target_sample_positive(entries, target_tick);
    let t = spec_target_sample(entries, target_tick as int) as u32;
    match sync {
        Some(s) => lemma_start_not_after_target(s, t, 1),
        None => {},
    }
}

/// The number of samples of a run (`n` samples of `d` ticks) that end at or before
/// `target` when the run starts at `tick`: all of them where they last no time, else as
/// many whole samples as fit between `tick` and `target`, at most `n`.
pub open spec fn run_count(tick: int, n: nat, d: nat, target: int) -> nat {
    if d == 0 {
        n
    } else if n <= (target - tick) / (d as int) {
        n
    } else {
        ((target - tick) / (d as int)) as nat
    }
}

proof fn lemma_advance_run_closed(tick: int, id: int, n: nat, d: nat, target: int)
    requires
        tick <= target,
    ensures
        advance_run(tick, id, n, d as int, target) == (
            tick + run_count(tick, n, d, target) * d,
            id + run_count(tick, n, d, target),
        ),
    decreases n,
{
    let c = run_count(tick, n, d, target);
    if n == 0 {
        assert(c == 0);
    } else if tick + d > target {
        assert(d > 0);
        assert((target - tick) / (d as int) == 0) by (nonlinear_arith)
            requires
                0 <= target - tick < d,
        ;
        assert(c == 0);
    } else {
        lemma_advance_run_closed(tick + d, id + 1, (n - 1) as nat, d, target);
        let c1 = run_count(tick + d, (n - 1) as nat, d, target);
        if d == 0 {
            assert(c == c1 + 1);
        } else {
            let x = target - tick;
            assert((x - d) / (d as int) == x / (d as int) - 1) by (nonlinear_arith)
                requires
                    d > 0,
                    x >= d,
            ;
            assert(c == c1 + 1);
        }
        assert(tick + d + c1 * d == tick + c * d) by (nonlinear_arith)
            requires
                c == c1 + 1,
        ;
    }
}

proof fn lemma_walk_push(
    entries: Seq<TimeToSampleEntry>,
    e: TimeToSampleEntry,
    tick: int,
    id: int,
    target: int,
)
    ensures
        walk_table(entries.push(e), tick, id, target) == advance_run(
            walk_table(entries, tick, id, target).0,
            walk_table(entries, tick, id, target).1,
            e.sample_count as nat,
            e.sample_delta as int,
            target,
        ),
    decreases entries.len(),
{
    if entries.len() == 0 {
        let r = advance_run(tick, id, e.sample_count as nat, e.sample_delta as int, target);
        assert(entries.push(e).drop_first() =~= Seq::<TimeToSampleEntry>::empty());
        assert(entries.push(e)[0] == e);
        assert(walk_table(entries.push(e).drop_first(), r.0, r.1, target) == r);
        assert(walk_table(entries, tick, id, target) == (tick, id));
    } else {
        let r = advance_run(
            tick,
            id,
            entries[0].sample_count as nat,
            entries[0].sample_delta as int,
            target,
        );
        assert(entries.push(e).drop_first() =~= entries.drop_first().push(e));
        assert(entries.push(e)[0] == entries[0]);
        lemma_walk_push(entries.drop_first(), e, r.0, r.1, target);
    }
}

proof fn lemma_walk_tick_bounded(entries: Seq<TimeToSampleEntry>, tick: int, id: int, target: int)
    requires
        tick <= target,
    ensures
        walk_table(entries, tick, id, target).0 <= target,
    decreases entries.len(),
{
    if entries.len() > 0 {
        let r = advance_run(
            tick,
            id,
            entries[0].sample_count as nat,
            entries[0].sample_delta as int,
            target,
        );
        lemma_advance_run_grows(
            tick,
            id,
            entries[0].sample_count as nat,
            entries[0].sample_delta as int,
            target,
        );
        lemma_walk_tick_bounded(entries.drop_first(), r.0, r.1, target);
    }
}

/// Walking the table one run further: the run `e` counts every one of its samples that
/// ends at or before `target_tick`, starting where the earlier runs stopped (`tick`, at
/// most `target_tick`), up to all `e.sample_count` of them; the sample id grows by that
/// number and the tick by that many deltas.
pub proof fn lemma_target_sample_next_run(
    entries: Seq<TimeToSampleEntry>,
    e: TimeToSampleEntry,
    target_tick: u64,
)
    ensures
        ({
            let tick = walk_table(entries, 0, 1, target_tick as int).0;
            let c = run_count(tick, e.sample_count as nat, e.sample_delta as nat, target_tick as int);
            &&& 0 <= tick <= target_tick
            &&& walk_table(entries.push(e), 0, 1, target_tick as int).0 == tick + c * e.sample_delta
            &&& spec_target_sample(entries.push(e), target_tick as int) == spec_target_sample(
                entries,
                target_tick as int,
            ) + c
        }),
{
    let w = walk_table(entries, 0, 1, target_tick as int);
    lemma_walk_tick_bounded(entries, 0, 1, target_tick as int);
    lemma_walk_tick_nonneg(entries, 0, 1, target_tick as int);
    lemma_walk_push(entries, e, 0, 1, target_tick as int);
    lemma_advance_run_closed(w.0, w.1, e.sample_count as nat, e.sample_delta as nat, target_tick as int);
}

proof fn lemma_advance_run_tick_grows(tick: int, id: int, count: nat, delta: int, target: int)
    requires
        delta >= 0,
    ensures
        advance_run(tick, id, count, delta, target).0 >= tick,
    decreases count,
{
    if count > 0 && tick + delta <= target {
        lemma_advance_run_tick_grows(tick + delta, id + 1, (count - 1) as nat, delta, target);
    }
}

proof fn lemma_walk_tick_nonneg(entries: Seq<TimeToSampleEntry>, tick: int, id: int, target: int)
    requires
        tick >= 0,
    ensures
        walk_table(entries, tick, id, target).0 >= 0,
    decreases entries.len(),
{
    if entries.len() > 0 {
        let r = advance_run(
            tick,
            id,
            entries[0].sample_count as nat,
            entries[0].sample_delta as int,
            target,
        );
        lemma_advance_run_tick_grows(
            tick,
            id,
            entries[0].sample_count as nat,
            entries[0].sample_delta as int,
            target,
        );
        lemma_walk_tick_nonneg(entries.drop_first(), r.0, r.1, target);
    }
}

/// A table of one run of `n` samples of `d > 0` ticks: the sample shown at `target_tick`
/// is `1 + min(n, target_tick / d)`.
pub proof fn lemma_target_sample_one_run(n: u32, d: u32, target_tick: u64)
    requires
        d > 0,
    ensures
        spec_target_sample(
            seq![TimeToSampleEntry { sample_count: n, sample_delta: d }],
            target_tick as int,
        ) == 1 + (if n as int <= target_tick as int / d as int {
            n as int
        } else {
            target_tick as int / d as int
        }),
{
    let e = TimeToSampleEntry { sample_count: n, sample_delta: d };
    let empty = Seq::<TimeToSampleEntry>::empty();
    assert(empty.push(e) =~= seq![e]);
    lemma_target_sample_next_run(empty, e, target_tick);
}

/// With a sync-sample table whose first entry is at most `target`, decoding starts at
/// an entry of the table: the last one of the entries that are at most `target`
/// before the first entry past it. Without a table, or when the first entry is past
/// `target`, it starts at the first sample.
pub proof fn lemma_start_is_last_sync_before(sync: Option<Seq<u32>>, target: u32)
    ensures
        match sync {
            Some(s) => if s.len() > 0 && s[0] <= target {
                exists|k: int|
                    0 <= k < s.len() && spec_start_sample(sync, target) == #[trigger] s[k] && (
                    forall|j: int| 0 <= j <= k ==> s[j] <= target) && (k + 1 == s.len() || s[k
                        + 1] > target)
            } else {
                spec_start_sample(sync, target) == 1
            },
            None => spec_start_sample(sync, target) == 1,
        },
{
    match sync {
        Some(s) => {
            if s.len() > 0 && s[0] <= target {
                let k = lemma_sync_walk(s, target, 1);
                assert(spec_start_sample(sync, target) == s[k]);
            }
        },
        None => {},
    }
}

proof fn lemma_sync_walk(s: Seq<u32>, target: u32, cur: u32) -> (k: int)
    requires
        s.len() > 0,
        s[0] <= target,
    ensures
        0 <= k < s.len(),
        spec_sync_start(s, target, cur) == s[k],
        forall|j: int| 0 <= j <= k ==> s[j] <= target,
        k + 1 == s.len() || s[k + 1] > target,
    decreases s.len(),
{
    let t = s.drop_first();
    if t.len() == 0 || t[0] > target {
        assert(spec_sync_start(t, target, s[0]) == s[0]);
        0
    } else {
        let k1 = lemma_sync_walk(t, target, s[0]);
        assert forall|j: int| 0 <= j <= k1 + 1 implies s[j] <= target by {
            if j > 0 {
                assert(s[j] == t[j - 1]);
            }
        }
        k1 + 1
    }
}

} // verus!
