//! The weekly alert schedule, kept as the bit vector the database stores.
use vstd::prelude::*;
use bit_vec::BitVec;

verus! {

/// bit-vec's `BitVec`, one bit per weekday (Monday first).
#[verifier::external_type_specification]
#[verifier::external_body]
#[verifier::reject_recursive_types(B)]
pub struct ExBitVec<B>(BitVec<B>);

/// What a `BitVec` reports for each index below its length, in order: the bit,
/// or `None` where its storage holds no word for that index (possible for a
/// value deserialized from raw fields, never for one built by pushing bits).
pub uninterp spec fn bit_reads(v: BitVec) -> Seq<Option<bool>>;

/// Calls bit-vec's `BitVec::get`. Claimed, as its source shows: `None` at or
/// past the length, and below it whatever the storage holds for that index
/// (`bit_reads`).
#[verifier::external_body]
fn bit_at(v: &BitVec, i: usize) -> (r: Option<bool>)
    ensures
        r == (if i < bit_reads(*v).len() { bit_reads(*v)[i as int] } else { None }),
{
    v.get(i)
}

/// Calls bit-vec's `BitVec::len`. Claimed, as its source shows: the number of
/// bits the vector counts (its `nbits`).
#[verifier::external_body]
fn bit_len(v: &BitVec) -> (r: usize)
    ensures
        r == bit_reads(*v).len(),
{
    v.len()
}

/// Calls bit-vec's `FromIterator<bool>` for `BitVec` (which pushes each flag in
/// turn, growing the storage as it goes). Claimed, as its source shows: every
/// index reads back its flag, in order.
#[verifier::external_body]
fn bit_vec_from_flags(flags: Vec<bool>) -> (r: BitVec)
    ensures
        bit_reads(r) == flags@.map_values(|b: bool| Some(b)),
{
    BitVec::from_iter(flags)
}

/// Alerts are on for `weekday` (0 is Monday): its bit reads as set. A day past
/// the end of the schedule, or one whose bit cannot be read, is off.
pub open spec fn alerts_on_spec(reads: Seq<Option<bool>>, weekday: int) -> bool {
    0 <= weekday < reads.len() && reads[weekday] == Some(true)
}

/// Whether alerts are switched on for `weekday` (0 is Monday).
pub fn alerts_on(alert_days: &BitVec, weekday: usize) -> (r: bool)
    ensures
        r == alerts_on_spec(bit_reads(*alert_days), weekday as int),
{
    match bit_at(alert_days, weekday) {
        Some(on) => on,
        None => false,
    }
}

/// Every index of the schedule can be read.
pub open spec fn all_readable(reads: Seq<Option<bool>>) -> bool {
    forall|i: int| 0 <= i < reads.len() ==> (#[trigger] reads[i]) is Some
}

/// The flags of a schedule whose every bit can be read, Monday first.
pub open spec fn flags_of(reads: Seq<Option<bool>>) -> Option<Seq<bool>> {
    if all_readable(reads) {
        Some(reads.map_values(|b: Option<bool>| b->0))
    } else {
        None
    }
}

/// The schedule as plain flags, one per weekday, Monday first; `None` when some
/// bit below the length cannot be read (where bit-vec's iterator panics).
pub fn alert_day_flags(alert_days: &BitVec) -> (r: Option<Vec<bool>>)
    ensures
        r matches Some(flags) ==> flags_of(bit_reads(*alert_days)) == Some(flags@),
        r is None ==> flags_of(bit_reads(*alert_days)) is None,
{
    let ghost reads = bit_reads(*alert_days);
    let n = bit_len(alert_days);
    let mut flags: Vec<bool> = Vec::new();
    let mut i: usize = 0;
    while i < n
        invariant
            i <= n,
            n == reads.len(),
            reads == bit_reads(*alert_days),
            flags@.len() == i,
            forall|j: int| 0 <= j < i ==> (#[trigger] reads[j]) == Some(flags@[j]),
        decreases n - i,
    {
        match bit_at(alert_days, i) {
            Some(b) => flags.push(b),
            None => {
                assert(!all_readable(reads)) by {
                    assert(reads[i as int] is None);
                }
                return None;
            },
        }
        i = i + 1;
    }
    assert(all_readable(reads));
    assert(reads.map_values(|b: Option<bool>| b->0) =~= flags@);
    Some(flags)
}

/// The schedule from plain flags, one per weekday, Monday first.
pub fn alert_days_from_flags(flags: Vec<bool>) -> (r: BitVec)
    ensures
        bit_reads(r) == flags@.map_values(|b: bool| Some(b)),
{
    bit_vec_from_flags(flags)
}

/// A schedule built from flags reads back those flags, and alerts are on
/// exactly for the days whose flag is set.
pub proof fn lemma_flags_round_trip(flags: Seq<bool>)
    ensures
        flags_of(flags.map_values(|b: bool| Some(b))) == Some(flags),
        forall|d: int| alerts_on_spec(flags.map_values(|b: bool| Some(b)), d) == (0 <= d < flags.len() && flags[d]),
{
    let reads = flags.map_values(|b: bool| Some(b));
    assert(all_readable(reads));
    assert(reads.map_values(|b: Option<bool>| b->0) =~= flags);
}

} // verus!
