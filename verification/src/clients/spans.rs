//! Merging wet forecast slots into the few stretches of a day worth a jacket.
use vstd::prelude::*;
use crate::clients::weather_client::Slot;
use crate::clock::{Timestamp, NANOS_PER_SEC};

verus! {

/// A stretch of time, from `from` to `to`.
#[derive(Clone, Copy, Debug, PartialEq, Eq, Structural)]
pub struct Span {
    pub from: Timestamp,
    pub to: Timestamp,
}

/// The width of the dry gap between two consecutive spans, in nanoseconds.
pub open spec fn gap_between(earlier: Span, later: Span) -> int {
    later.from.at() - earlier.to.at()
}

/// Folds `next` into `acc`: it extends the last span when the gap to it is at
/// most `slack` nanoseconds, and starts a new span otherwise.
pub open spec fn join_step(acc: Seq<Span>, next: Span, slack: int) -> Seq<Span> {
    if acc.len() > 0 && gap_between(acc.last(), next) <= slack {
        acc.update(
            acc.len() - 1,
            Span { from: acc.last().from, to: Timestamp::latest(acc.last().to, next.to) },
        )
    } else {
        acc.push(next)
    }
}

/// `spans` folded left to right with `join_step`.
pub open spec fn joined(spans: Seq<Span>, slack: int) -> Seq<Span>
    decreases spans.len(),
{
    if spans.len() == 0 {
        seq![]
    } else {
        join_step(joined(spans.drop_last(), slack), spans.last(), slack)
    }
}

/// Consecutive spans are more than `slack` nanoseconds apart.
pub open spec fn separated_by_more_than(spans: Seq<Span>, slack: int) -> bool {
    forall|i: int| 0 <= i < spans.len() - 1 ==> #[trigger] gap_between(spans[i], spans[i + 1]) > slack
}

/// Spans start in non-decreasing order.
pub open spec fn sorted_by_start(spans: Seq<Span>) -> bool {
    forall|i: int, j: int| 0 <= i < j < spans.len() ==> spans[i].from.at() <= spans[j].from.at()
}

/// `t` is the start of one of `spans`.
pub open spec fn is_some_start(spans: Seq<Span>, t: Timestamp) -> bool {
    exists|k: int| 0 <= k < spans.len() && spans[k].from == t
}

/// `t` is the end of one of `spans`.
pub open spec fn is_some_end(spans: Seq<Span>, t: Timestamp) -> bool {
    exists|k: int| 0 <= k < spans.len() && spans[k].to == t
}

/// `inner` lies within one of `outer`.
pub open spec fn covered_by(outer: Seq<Span>, inner: Span) -> bool {
    exists|j: int|
        0 <= j < outer.len() && outer[j].from.at() <= inner.from.at() && inner.to.at() <= outer[j].to.at()
}

/// Joining never adds spans, keeps at least one, and keeps the first start.
pub proof fn lemma_joined_shape(spans: Seq<Span>, slack: int)
    ensures
        joined(spans, slack).len() <= spans.len(),
        spans.len() > 0 ==> joined(spans, slack).len() > 0 && joined(spans, slack)[0].from == spans[0].from,
    decreases spans.len(),
{
    if spans.len() > 0 {
        lemma_joined_shape(spans.drop_last(), slack);
        if spans.len() > 1 {
            assert(spans.drop_last()[0] == spans[0]);
        }
    }
}

/// Consecutive joined spans are separated by gaps wider than `slack`.
pub proof fn lemma_joined_separated(spans: Seq<Span>, slack: int)
    ensures
        separated_by_more_than(joined(spans, slack), slack),
    decreases spans.len(),
{
    if spans.len() > 0 {
        let acc = joined(spans.drop_last(), slack);
        lemma_joined_separated(spans.drop_last(), slack);
        let r = joined(spans, slack);
        assert forall|i: int| 0 <= i < r.len() - 1 implies #[trigger] gap_between(r[i], r[i + 1]) > slack by {
            if i + 1 < acc.len() {
                assert(r[i] == acc[i]);
                assert(r[i + 1].from == acc[i + 1].from);
                assert(gap_between(acc[i], acc[i + 1]) > slack);
            } else {
                assert(r[i] == acc[i]);
            }
        }
    }
}

/// Every joined span starts where some input span starts.
#[verifier::spinoff_prover]
#[verifier::rlimit(50)]
pub proof fn lemma_joined_starts(spans: Seq<Span>, slack: int)
    ensures
        forall|j: int| 0 <= j < joined(spans, slack).len() ==> is_some_start(spans, #[trigger] joined(spans, slack)[j].from),
    decreases spans.len(),
{
    if spans.len() > 0 {
        let prefix = spans.drop_last();
        let acc = joined(prefix, slack);
        let r = joined(spans, slack);
        lemma_joined_starts(prefix, slack);
        assert forall|j: int| 0 <= j < r.len() implies is_some_start(spans, #[trigger] r[j].from) by {
            if j < acc.len() {
                assert(r[j].from == acc[j].from);
                assert(is_some_start(prefix, acc[j].from));
                let k = choose|k: int| 0 <= k < prefix.len() && prefix[k].from == acc[j].from;
                assert(spans[k] == prefix[k]);
            } else {
                assert(spans[spans.len() - 1].from == r[j].from);
            }
        }
    }
}

/// Every joined span ends where some input span ends.
#[verifier::spinoff_prover]
#[verifier::rlimit(50)]
pub proof fn lemma_joined_ends(spans: Seq<Span>, slack: int)
    ensures
        forall|j: int| 0 <= j < joined(spans, slack).len() ==> is_some_end(spans, #[trigger] joined(spans, slack)[j].to),
    decreases spans.len(),
{
    if spans.len() > 0 {
        let prefix = spans.drop_last();
        let acc = joined(prefix, slack);
        let r = joined(spans, slack);
        lemma_joined_ends(prefix, slack);
        assert forall|j: int| 0 <= j < r.len() implies is_some_end(spans, #[trigger] r[j].to) by {
            if j < acc.len() && r[j].to == acc[j].to {
                assert(is_some_end(prefix, acc[j].to));
                let k = choose|k: int| 0 <= k < prefix.len() && prefix[k].to == acc[j].to;
                assert(spans[k] == prefix[k]);
            } else {
                assert(spans[spans.len() - 1].to == r[j].to);
            }
        }
    }
}

/// When the input starts in order, every input span lies within a joined span.
#[verifier::spinoff_prover]
#[verifier::rlimit(50)]
pub proof fn lemma_joined_covers(spans: Seq<Span>, slack: int)
    requires
        sorted_by_start(spans),
    ensures
        forall|k: int| 0 <= k < spans.len() ==> covered_by(joined(spans, slack), #[trigger] spans[k]),
    decreases spans.len(),
{
    if spans.len() > 0 {
        let prefix = spans.drop_last();
        let acc = joined(prefix, slack);
        let next = spans.last();
        let r = joined(spans, slack);
        assert(sorted_by_start(prefix));
        lemma_joined_covers(prefix, slack);
        lemma_joined_starts(prefix, slack);
        assert forall|k: int| 0 <= k < spans.len() implies covered_by(r, #[trigger] spans[k]) by {
            if k < prefix.len() {
                assert(prefix[k] == spans[k]);
                assert(covered_by(acc, prefix[k]));
                let j = choose|j: int|
                    0 <= j < acc.len() && acc[j].from.at() <= prefix[k].from.at()
                        && prefix[k].to.at() <= acc[j].to.at();
                assert(r[j].from == acc[j].from);
                assert(r[j].to.at() >= acc[j].to.at());
            } else {
                if acc.len() > 0 && gap_between(acc.last(), next) <= slack {
                    let last = acc.len() - 1;
                    assert(is_some_start(prefix, acc[last].from));
                    let m = choose|m: int| 0 <= m < prefix.len() && prefix[m].from == acc[last].from;
                    assert(spans[m] == prefix[m]);
                    assert(r[last].from.at() <= next.from.at());
                } else {
                    assert(r[r.len() - 1] == next);
                }
            }
        }
    }
}

/// Joins the spans (in order) whose dry gap is at most `slack_nanos`.
fn join_spans(spans: &Vec<Span>, slack_nanos: i128) -> (r: Vec<Span>)
    ensures
        r@ == joined(spans@, slack_nanos as int),
{
    let mut merged: Vec<Span> = Vec::new();
    let mut i: usize = 0;
    while i < spans.len()
        invariant
            i <= spans@.len(),
            merged@ == joined(spans@.take(i as int), slack_nanos as int),
        decreases spans@.len() - i,
    {
        let next = spans[i];
        assert(spans@.take(i + 1).drop_last() == spans@.take(i as int));
        assert(spans@.take(i + 1).last() == next);
        let n = merged.len();
        if n > 0 && merged[n - 1].to.nanos_until(&next.from) <= slack_nanos {
            let last = merged[n - 1];
            merged.set(n - 1, Span { from: last.from, to: last.to.later_of(next.to) });
        } else {
            merged.push(next);
        }
        i = i + 1;
    }
    assert(spans@.take(spans@.len() as int) == spans@);
    merged
}

/// A wet slot clamped to the day `[day_start, day_end]`.
pub open spec fn clamped(slot: Slot, day_start: Timestamp, day_end: Timestamp) -> Span {
    Span { from: Timestamp::latest(slot.start, day_start), to: Timestamp::earliest(slot.end, day_end) }
}

/// Every slot clamped to the day.
pub open spec fn clamp_all(wet: Seq<Slot>, day_start: Timestamp, day_end: Timestamp) -> Seq<Span> {
    wet.map_values(|slot: Slot| clamped(slot, day_start, day_end))
}

/// Clamps wet slots to the day and joins the ones that touch or overlap.
#[verifier::spinoff_prover]
#[verifier::rlimit(50)]
pub fn to_spans(wet: Vec<Slot>, day_start: Timestamp, day_end: Timestamp) -> (r: Vec<Span>)
    ensures
        r@ == joined(clamp_all(wet@, day_start, day_end), 0),
        r@.len() <= wet@.len(),
        separated_by_more_than(r@, 0),
        forall|j: int| 0 <= j < r@.len() ==> day_start.at() <= (#[trigger] r@[j]).from.at() && r@[j].to.at() <= day_end.at(),
        sorted_by_start(clamp_all(wet@, day_start, day_end)) ==> forall|k: int| 0 <= k < wet@.len()
            ==> covered_by(r@, #[trigger] clamped(wet@[k], day_start, day_end)),
{
    let mut clamped_spans: Vec<Span> = Vec::new();
    let mut i: usize = 0;
    while i < wet.len()
        invariant
            i <= wet@.len(),
            clamped_spans@ == clamp_all(wet@.take(i as int), day_start, day_end),
        decreases wet@.len() - i,
    {
        let from = wet[i].start.later_of(day_start);
        let to = wet[i].end.earlier_of(day_end);
        clamped_spans.push(Span { from, to });
        assert(wet@.take(i + 1) == wet@.take(i as int).push(wet@[i as int]));
        i = i + 1;
    }
    assert(wet@.take(wet@.len() as int) == wet@);
    let ghost spans = clamp_all(wet@, day_start, day_end);
    let r = join_spans(&clamped_spans, 0);
    proof {
        lemma_joined_shape(spans, 0);
        lemma_joined_separated(spans, 0);
        lemma_joined_starts(spans, 0);
        lemma_joined_ends(spans, 0);
        assert forall|j: int| 0 <= j < r@.len() implies day_start.at() <= (#[trigger] r@[j]).from.at()
            && r@[j].to.at() <= day_end.at() by {
            assert(is_some_start(spans, r@[j].from));
            assert(is_some_end(spans, r@[j].to));
            let a = choose|k: int| 0 <= k < spans.len() && spans[k].from == r@[j].from;
            let b = choose|k: int| 0 <= k < spans.len() && spans[k].to == r@[j].to;
            assert(spans[a] == clamped(wet@[a], day_start, day_end));
            assert(spans[b] == clamped(wet@[b], day_start, day_end));
        }
        if sorted_by_start(spans) {
            lemma_joined_covers(spans, 0);
            assert forall|k: int| 0 <= k < wet@.len()
                implies covered_by(r@, #[trigger] clamped(wet@[k], day_start, day_end)) by {
                assert(spans[k] == clamped(wet@[k], day_start, day_end));
            }
        }
    }
    r
}

/// Closes every dry gap at or under `tolerance` seconds.
pub fn bridge(spans: Vec<Span>, tolerance: i64) -> (r: Vec<Span>)
    ensures
        r@ == joined(spans@, tolerance * NANOS_PER_SEC),
        r@.len() <= spans@.len(),
        spans@.len() > 0 ==> r@.len() > 0 && r@[0].from == spans@[0].from,
        separated_by_more_than(r@, tolerance * NANOS_PER_SEC),
        forall|j: int| 0 <= j < r@.len() ==> is_some_start(spans@, #[trigger] r@[j].from),
        forall|j: int| 0 <= j < r@.len() ==> is_some_end(spans@, #[trigger] r@[j].to),
        sorted_by_start(spans@) ==> forall|k: int| 0 <= k < spans@.len() ==> covered_by(r@, #[trigger] spans@[k]),
{
    let slack: i128 = tolerance as i128 * 1_000_000_000i128;
    let r = join_spans(&spans, slack);
    proof {
        let s = tolerance * NANOS_PER_SEC;
        lemma_joined_shape(spans@, s);
        lemma_joined_separated(spans@, s);
        lemma_joined_starts(spans@, s);
        lemma_joined_ends(spans@, s);
        if sorted_by_start(spans@) {
            lemma_joined_covers(spans@, s);
        }
    }
    r
}

/// The dry gap before span `i` (between spans `i - 1` and `i`).
pub open spec fn gap_before(spans: Seq<Span>, i: int) -> int {
    gap_between(spans[i - 1], spans[i])
}

/// Among the gaps before spans `1 .. n`, the first narrowest one.
pub open spec fn narrowest_gap_in(spans: Seq<Span>, n: int) -> int
    decreases n,
{
    if n <= 2 {
        1
    } else {
        let m = narrowest_gap_in(spans, n - 1);
        if gap_before(spans, n - 1) < gap_before(spans, m) {
            n - 1
        } else {
            m
        }
    }
}

/// The first narrowest gap of `spans` lies in range, is no wider than any other,
/// and is strictly narrower than every gap before it.
pub proof fn lemma_narrowest_gap(spans: Seq<Span>, n: int)
    requires
        2 <= n,
    ensures
        1 <= narrowest_gap_in(spans, n) < n,
        forall|i: int| 1 <= i < n ==> gap_before(spans, narrowest_gap_in(spans, n)) <= #[trigger] gap_before(spans, i),
        forall|i: int| 1 <= i < narrowest_gap_in(spans, n) ==> gap_before(spans, narrowest_gap_in(spans, n)) < #[trigger] gap_before(spans, i),
    decreases n,
{
    if n > 2 {
        lemma_narrowest_gap(spans, n - 1);
    }
}

/// `spans` with the gap before span `i` closed: span `i - 1` runs on to where span `i` ends.
pub open spec fn close_gap(spans: Seq<Span>, i: int) -> Seq<Span> {
    spans.update(i - 1, Span { from: spans[i - 1].from, to: spans[i].to }).remove(i)
}

/// The narrowest remaining gap closed, repeatedly, until at most `max` spans
/// are left (or a single span remains).
pub open spec fn capped(spans: Seq<Span>, max: int) -> Seq<Span>
    decreases spans.len(),
{
    if spans.len() > max && spans.len() >= 2 {
        proof {
            lemma_narrowest_gap(spans, spans.len() as int);
        }
        capped(close_gap(spans, narrowest_gap_in(spans, spans.len() as int)), max)
    } else {
        spans
    }
}

/// Index of the first narrowest gap, searching left to right.
fn narrowest_gap(spans: &Vec<Span>) -> (r: usize)
    requires
        spans@.len() >= 2,
    ensures
        r == narrowest_gap_in(spans@, spans@.len() as int),
{
    let mut best: usize = 1;
    let mut best_gap: i128 = spans[0].to.nanos_until(&spans[1].from);
    let mut k: usize = 2;
    while k < spans.len()
        invariant
            2 <= k <= spans@.len(),
            best == narrowest_gap_in(spans@, k as int),
            1 <= best < k,
            best_gap == gap_before(spans@, best as int),
        decreases spans@.len() - k,
    {
        let g = spans[k - 1].to.nanos_until(&spans[k].from);
        if g < best_gap {
            best = k;
            best_gap = g;
        }
        k = k + 1;
    }
    best
}

/// How many spans capping leaves.
pub open spec fn capped_len(n: int, max: int) -> int {
    if n <= max {
        n
    } else if max >= 1 {
        max
    } else {
        1
    }
}

/// Capping leaves the expected number of spans, keeps the overall start and end,
/// and only ever uses starts and ends of the input spans.
#[verifier::spinoff_prover]
#[verifier::rlimit(50)]
pub proof fn lemma_capped_shape(spans: Seq<Span>, max: int)
    requires
        max >= 0,
    ensures
        capped(spans, max).len() == capped_len(spans.len() as int, max),
        spans.len() > 0 ==> capped(spans, max)[0].from == spans[0].from,
        spans.len() > 0 ==> capped(spans, max).last().to == spans.last().to,
        forall|j: int| 0 <= j < capped(spans, max).len() ==> is_some_start(spans, #[trigger] capped(spans, max)[j].from),
        forall|j: int| 0 <= j < capped(spans, max).len() ==> is_some_end(spans, #[trigger] capped(spans, max)[j].to),
    decreases spans.len(),
{
    if spans.len() > max && spans.len() >= 2 {
        let n = spans.len() as int;
        lemma_narrowest_gap(spans, n);
        let m = narrowest_gap_in(spans, n);
        let next = close_gap(spans, m);
        assert(next.len() == n - 1);
        lemma_capped_shape(next, max);
        let r = capped(spans, max);
        assert(r == capped(next, max));
        assert(next[0].from == spans[0].from);
        assert(next.last().to == spans.last().to);
        assert forall|j: int| 0 <= j < r.len() implies is_some_start(spans, #[trigger] r[j].from) by {
            assert(is_some_start(next, r[j].from));
            let k = choose|k: int| 0 <= k < next.len() && next[k].from == r[j].from;
            if k < m - 1 {
                assert(next[k] == spans[k]);
            } else if k == m - 1 {
                assert(next[k].from == spans[k].from);
            } else {
                assert(next[k] == spans[k + 1]);
            }
        }
        assert forall|j: int| 0 <= j < r.len() implies is_some_end(spans, #[trigger] r[j].to) by {
            assert(is_some_end(next, r[j].to));
            let k = choose|k: int| 0 <= k < next.len() && next[k].to == r[j].to;
            if k < m - 1 {
                assert(next[k] == spans[k]);
            } else if k == m - 1 {
                assert(next[k].to == spans[m].to);
            } else {
                assert(next[k] == spans[k + 1]);
            }
        }
    }
}

/// Repeatedly swallows the narrowest remaining gap until at most `max` spans are left.
pub fn cap(spans: Vec<Span>, max: usize) -> (r: Vec<Span>)
    ensures
        r@ == capped(spans@, max as int),
        r@.len() == capped_len(spans@.len() as int, max as int),
        spans@.len() > 0 ==> r@[0].from == spans@[0].from && r@.last().to == spans@.last().to,
        forall|j: int| 0 <= j < r@.len() ==> is_some_start(spans@, #[trigger] r@[j].from),
        forall|j: int| 0 <= j < r@.len() ==> is_some_end(spans@, #[trigger] r@[j].to),
        closes_narrowest(spans@, r@),
{
    let ghost original = spans@;
    let mut spans = spans;
    while spans.len() > max && spans.len() >= 2
        invariant
            capped(spans@, max as int) == capped(original, max as int),
        decreases spans@.len(),
    {
        let next = narrowest_gap(&spans);
        proof {
            lemma_narrowest_gap(spans@, spans@.len() as int);
        }
        let ghost before = spans@;
        let merged = Span { from: spans[next - 1].from, to: spans[next].to };
        spans.set(next - 1, merged);
        spans.remove(next);
        assert(spans@ == close_gap(before, next as int));
    }
    proof {
        lemma_capped_shape(original, max as int);
        lemma_capped_closes_narrowest(original, max as int);
    }
    spans
}

/// The dry gaps between consecutive spans, in order.
pub open spec fn gaps(spans: Seq<Span>) -> Seq<int> {
    if spans.len() == 0 {
        seq![]
    } else {
        Seq::new((spans.len() - 1) as nat, |i: int| gap_between(spans[i], spans[i + 1]))
    }
}

/// `sub` is the subsequence of `sup` at the increasing positions `idx`.
pub open spec fn picks(sub: Seq<int>, sup: Seq<int>, idx: Seq<int>) -> bool {
    &&& idx.len() == sub.len()
    &&& forall|j: int| 0 <= j < idx.len() ==> 0 <= #[trigger] idx[j] < sup.len() && sub[j] == sup[idx[j]]
    &&& forall|j: int, k: int| 0 <= j < k < idx.len() ==> idx[j] < idx[k]
}

/// The gaps of `output` are some of the gaps of `input`, and every gap of
/// `input` left out is no wider than any gap kept.
pub open spec fn closes_narrowest(input: Seq<Span>, output: Seq<Span>) -> bool {
    exists|idx: Seq<int>|
        picks(gaps(output), gaps(input), idx) && forall|i: int, j: int|
            0 <= i < gaps(input).len() && !idx.contains(i) && 0 <= j < gaps(output).len()
                ==> #[trigger] gaps(input)[i] <= #[trigger] gaps(output)[j]
}

proof fn lemma_close_gap_gaps(spans: Seq<Span>, m: int)
    requires
        1 <= m < spans.len(),
    ensures
        gaps(close_gap(spans, m)) == gaps(spans).remove(m - 1),
{
    let next = close_gap(spans, m);
    assert(gaps(next).len() == gaps(spans).remove(m - 1).len());
    assert forall|i: int| 0 <= i < gaps(next).len() implies gaps(next)[i] == gaps(spans).remove(m - 1)[i] by {
        if i < m - 2 {
            assert(next[i] == spans[i] && next[i + 1] == spans[i + 1]);
        } else if i == m - 2 {
            assert(next[i] == spans[i] && next[i + 1].from == spans[i + 1].from);
        } else if i == m - 1 {
            assert(next[i].to == spans[m].to && next[i + 1] == spans[i + 2]);
        } else {
            assert(next[i] == spans[i + 1] && next[i + 1] == spans[i + 2]);
        }
    }
    assert(gaps(next) =~= gaps(spans).remove(m - 1));
}

/// Capping closes the narrowest gaps: the gaps it keeps are gaps of the input,
/// and none it closed is wider than one it kept.
#[verifier::spinoff_prover]
#[verifier::rlimit(50)]
pub proof fn lemma_capped_closes_narrowest(spans: Seq<Span>, max: int)
    ensures
        closes_narrowest(spans, capped(spans, max)),
    decreases spans.len(),
{
    if spans.len() > max && spans.len() >= 2 {
        let n = spans.len() as int;
        lemma_narrowest_gap(spans, n);
        let m = narrowest_gap_in(spans, n);
        let next = close_gap(spans, m);
        assert(next.len() == n - 1);
        lemma_capped_closes_narrowest(next, max);
        lemma_close_gap_gaps(spans, m);
        let r = capped(spans, max);
        assert(r == capped(next, max));
        let gs = gaps(spans);
        let gn = gaps(next);
        let gr = gaps(r);
        let idx2 = choose|idx: Seq<int>|
            picks(gr, gn, idx) && forall|i: int, j: int|
                0 <= i < gn.len() && !idx.contains(i) && 0 <= j < gr.len()
                    ==> #[trigger] gn[i] <= #[trigger] gr[j];
        let idx = Seq::new(idx2.len(), |j: int| if idx2[j] < m - 1 { idx2[j] } else { idx2[j] + 1 });
        assert forall|j: int| 0 <= j < idx.len() implies 0 <= #[trigger] idx[j] < gs.len() && gr[j] == gs[idx[j]] by {
            assert(gr[j] == gn[idx2[j]]);
        }
        assert forall|j: int, k: int| 0 <= j < k < idx.len() implies idx[j] < idx[k] by {
            assert(idx2[j] < idx2[k]);
        }
        assert(picks(gr, gs, idx));
        assert forall|i: int, j: int| 0 <= i < gs.len() && !idx.contains(i) && 0 <= j < gr.len()
            implies #[trigger] gs[i] <= #[trigger] gr[j] by {
            assert(gr[j] == gs[idx[j]]);
            assert(gs[idx[j]] == gap_before(spans, idx[j] + 1));
            if i == m - 1 {
                assert(gs[i] == gap_before(spans, m));
            } else {
                let i2 = if i < m - 1 { i } else { i - 1 };
                assert(gn[i2] == gs[i]);
                if idx2.contains(i2) {
                    let k = choose|k: int| 0 <= k < idx2.len() && idx2[k] == i2;
                    assert(idx[k] == i);
                }
                assert(gn[i2] <= gr[j]);
            }
        }
    } else {
        let g = gaps(spans);
        let idx = Seq::new(g.len(), |j: int| j);
        assert(picks(g, g, idx));
        assert forall|i: int, j: int| 0 <= i < g.len() && !idx.contains(i) && 0 <= j < g.len()
            implies #[trigger] g[i] <= #[trigger] g[j] by {
            assert(idx[i] == i);
        }
    }
}

/// Capping never narrows a gap: spans more than `slack` apart stay so.
pub proof fn lemma_capped_keeps_separation(spans: Seq<Span>, slack: int, max: int)
    requires
        separated_by_more_than(spans, slack),
    ensures
        separated_by_more_than(capped(spans, max), slack),
{
    lemma_capped_closes_narrowest(spans, max);
    let r = capped(spans, max);
    let idx = choose|idx: Seq<int>|
        picks(gaps(r), gaps(spans), idx) && forall|i: int, j: int|
            0 <= i < gaps(spans).len() && !idx.contains(i) && 0 <= j < gaps(r).len()
                ==> #[trigger] gaps(spans)[i] <= #[trigger] gaps(r)[j];
    assert forall|i: int| 0 <= i < r.len() - 1 implies #[trigger] gap_between(r[i], r[i + 1]) > slack by {
        assert(gaps(r)[i] == gap_between(r[i], r[i + 1]));
        let k = idx[i];
        assert(gaps(spans)[k] == gap_between(spans[k], spans[k + 1]));
    }
}

/// Every span ends no earlier than it starts.
pub open spec fn forward(spans: Seq<Span>) -> bool {
    forall|j: int| 0 <= j < spans.len() ==> (#[trigger] spans[j]).from.at() <= spans[j].to.at()
}

/// Every span of `inner` lies within a span of `outer`.
pub open spec fn all_covered_by(outer: Seq<Span>, inner: Seq<Span>) -> bool {
    forall|k: int| 0 <= k < inner.len() ==> covered_by(outer, #[trigger] inner[k])
}

/// Covering is transitive.
pub proof fn lemma_covered_transitive(a: Seq<Span>, b: Seq<Span>, c: Seq<Span>)
    requires
        all_covered_by(b, a),
        all_covered_by(c, b),
    ensures
        all_covered_by(c, a),
{
    assert forall|k: int| 0 <= k < a.len() implies covered_by(c, #[trigger] a[k]) by {
        assert(covered_by(b, a[k]));
        let j = choose|j: int| 0 <= j < b.len() && b[j].from.at() <= a[k].from.at() && a[k].to.at() <= b[j].to.at();
        assert(covered_by(c, b[j]));
        let i = choose|i: int| 0 <= i < c.len() && c[i].from.at() <= b[j].from.at() && b[j].to.at() <= c[i].to.at();
    }
}

/// Joining spans that start in order yields spans that start in order and run forward
/// whenever the input spans do.
#[verifier::spinoff_prover]
#[verifier::rlimit(50)]
pub proof fn lemma_joined_order(spans: Seq<Span>, slack: int)
    requires
        sorted_by_start(spans),
    ensures
        sorted_by_start(joined(spans, slack)),
        forward(spans) ==> forward(joined(spans, slack)),
    decreases spans.len(),
{
    if spans.len() > 0 {
        let prefix = spans.drop_last();
        let acc = joined(prefix, slack);
        let next = spans.last();
        let r = joined(spans, slack);
        assert(sorted_by_start(prefix));
        lemma_joined_order(prefix, slack);
        lemma_joined_starts(prefix, slack);
        assert forall|i: int, j: int| 0 <= i < j < r.len() implies r[i].from.at() <= r[j].from.at() by {
            if j < acc.len() {
                assert(r[i].from == acc[i].from && r[j].from == acc[j].from);
            } else {
                assert(r[i].from == acc[i].from);
                assert(is_some_start(prefix, acc[i].from));
                let m = choose|m: int| 0 <= m < prefix.len() && prefix[m].from == acc[i].from;
                assert(spans[m] == prefix[m]);
                assert(r[j] == next);
            }
        }
        if forward(spans) {
            assert(forward(prefix)) by {
                assert forall|j: int| 0 <= j < prefix.len() implies (#[trigger] prefix[j]).from.at() <= prefix[j].to.at() by {
                    assert(prefix[j] == spans[j]);
                }
            }
            assert forall|j: int| 0 <= j < r.len() implies (#[trigger] r[j]).from.at() <= r[j].to.at() by {
                if j < acc.len() {
                    assert(acc[j].from.at() <= acc[j].to.at());
                } else {
                    assert(spans[spans.len() - 1] == next);
                }
            }
        }
    }
}

/// Capping spans that run forward and do not touch covers every input span.
#[verifier::spinoff_prover]
#[verifier::rlimit(50)]
pub proof fn lemma_capped_covers(spans: Seq<Span>, max: int)
    requires
        forward(spans),
        separated_by_more_than(spans, 0),
    ensures
        all_covered_by(capped(spans, max), spans),
    decreases spans.len(),
{
    if spans.len() > max && spans.len() >= 2 {
        let n = spans.len() as int;
        lemma_narrowest_gap(spans, n);
        let m = narrowest_gap_in(spans, n);
        let next = close_gap(spans, m);
        assert(next.len() == n - 1);
        let before = m - 1;
        assert(gap_between(spans[before], spans[before + 1]) > 0);
        assert(before + 1 == m);
        assert(forward(next)) by {
            assert forall|j: int| 0 <= j < next.len() implies (#[trigger] next[j]).from.at() <= next[j].to.at() by {
                if j < m - 1 {
                    assert(next[j] == spans[j]);
                } else if j == m - 1 {
                    assert(spans[m - 1].from.at() <= spans[m - 1].to.at());
                    assert(spans[m].from.at() <= spans[m].to.at());
                } else {
                    assert(next[j] == spans[j + 1]);
                }
            }
        }
        lemma_close_gap_gaps(spans, m);
        assert(separated_by_more_than(next, 0)) by {
            assert forall|i: int| 0 <= i < next.len() - 1 implies #[trigger] gap_between(next[i], next[i + 1]) > 0 by {
                assert(gaps(next)[i] == gap_between(next[i], next[i + 1]));
                let k = if i < m - 1 { i } else { i + 1 };
                assert(gaps(spans)[k] == gap_between(spans[k], spans[k + 1]));
            }
        }
        assert(all_covered_by(next, spans)) by {
            assert forall|k: int| 0 <= k < spans.len() implies covered_by(next, #[trigger] spans[k]) by {
                if k < m - 1 {
                    assert(next[k] == spans[k]);
                } else if k == m - 1 {
                    assert(spans[m].from.at() <= spans[m].to.at());
                    assert(next[m - 1].from == spans[m - 1].from && next[m - 1].to == spans[m].to);
                } else if k == m {
                    assert(spans[m - 1].from.at() <= spans[m - 1].to.at());
                    assert(next[m - 1].from == spans[m - 1].from && next[m - 1].to == spans[m].to);
                } else {
                    assert(next[k - 1] == spans[k]);
                }
            }
        }
        lemma_capped_covers(next, max);
        assert(capped(spans, max) == capped(next, max));
        lemma_covered_transitive(spans, next, capped(spans, max));
    } else {
        assert forall|k: int| 0 <= k < spans.len() implies covered_by(spans, #[trigger] spans[k]) by {}
    }
}

/// Spans already separated by more than `slack` are left as they are by joining.
pub proof fn lemma_joined_keeps_separated(spans: Seq<Span>, slack: int)
    requires
        separated_by_more_than(spans, slack),
    ensures
        joined(spans, slack) == spans,
    decreases spans.len(),
{
    if spans.len() > 0 {
        let front = spans.drop_last();
        assert(separated_by_more_than(front, slack)) by {
            assert forall|i: int| 0 <= i < front.len() - 1 implies #[trigger] gap_between(front[i], front[i + 1]) > slack by {
                assert(gap_between(spans[i], spans[i + 1]) > slack);
            }
        }
        lemma_joined_keeps_separated(front, slack);
        if front.len() > 0 {
            let i = spans.len() - 2;
            assert(gap_between(spans[i], spans[i + 1]) > slack);
            assert(front.last() == spans[i]);
        }
        assert(front.push(spans.last()) =~= spans);
    }
}

/// Bridging twice with the same tolerance is bridging once: a second pass
/// finds no gap left to close.
pub proof fn lemma_joined_idempotent(spans: Seq<Span>, slack: int)
    ensures
        joined(joined(spans, slack), slack) == joined(spans, slack),
{
    lemma_joined_separated(spans, slack);
    lemma_joined_keeps_separated(joined(spans, slack), slack);
}

/// Capping to `wide` and then to `narrow <= wide` is capping to `narrow`
/// directly; in particular capping twice to the same limit is capping once.
pub proof fn lemma_capped_twice(spans: Seq<Span>, wide: int, narrow: int)
    requires
        narrow <= wide,
    ensures
        capped(capped(spans, wide), narrow) == capped(spans, narrow),
    decreases spans.len(),
{
    if spans.len() > wide && spans.len() >= 2 {
        lemma_narrowest_gap(spans, spans.len() as int);
        let next = close_gap(spans, narrowest_gap_in(spans, spans.len() as int));
        lemma_capped_twice(next, wide, narrow);
    }
}

} // verus!
