//! A rolling-window token counter made of two fixed windows.

use vstd::arithmetic::div_mod::{lemma_div_is_ordered, lemma_fundamental_div_mod};
use vstd::prelude::*;

verus! {

/// The number of window indices before they wrap around.
pub const INDEX_SPAN: u64 = 0x1_0000_0000;

/// One fixed window: its number on the wrapping index line and the tokens
/// counted in it.
pub struct Slot {
    pub index: u32,
    pub count: u32,
}

/// What a counter holds: the window length, the latest instant that anything
/// was recorded at, the tokens counted in the window of that instant, and
/// those counted in the window before it.
pub struct CounterModel {
    pub window_ms: int,
    pub latest_ms: int,
    pub current: u32,
    pub previous: u32,
}

/// The number of the window that holds the instant `now_ms`.
pub open spec fn bucket_at(window_ms: int, now_ms: int) -> int {
    now_ms / window_ms
}

/// The number of the latest window that anything was recorded in.
pub open spec fn newest(m: CounterModel) -> int {
    bucket_at(m.window_ms, m.latest_ms)
}

/// The place of a window on the wrapping index line.
pub open spec fn index_at(bucket: int) -> u32 {
    (bucket % (INDEX_SPAN as int)) as u32
}

/// The distance from `b` forward to `a` on the wrapping index line.
pub open spec fn distance(a: u32, b: u32) -> int {
    (a - b) % (INDEX_SPAN as int)
}

/// `a` lies strictly after `b`, seen from less than half the index line away.
pub open spec fn later(a: u32, b: u32) -> bool {
    0 < distance(a, b) < 0x8000_0000
}

/// The index one window before `index`.
pub open spec fn index_before(index: u32) -> u32 {
    if index == 0 { u32::MAX } else { (index - 1) as u32 }
}

/// A count kept in 32 bits: it saturates instead of wrapping.
pub open spec fn saturated(count: int) -> u32 {
    if count > u32::MAX { u32::MAX } else { count as u32 }
}

/// `amount * part / whole`, rounded to the nearest integer, halves up.
pub open spec fn share(amount: int, part: int, whole: int) -> int {
    (2 * (amount * part) + whole) / (2 * whole)
}

/// The counts that a window and the window before it contribute, before
/// weighting.
pub open spec fn effective(m: CounterModel, bucket: int) -> (u32, u32) {
    if bucket == newest(m) {
        (m.current, m.previous)
    } else if bucket == newest(m) + 1 {
        (0, m.current)
    } else {
        (0, 0)
    }
}

/// The rolling total at `now_ms`: everything counted in the window of
/// `now_ms`, plus the window before it, weighted by how much of it the
/// rolling window still covers.
pub open spec fn rolling_total(m: CounterModel, now_ms: int) -> int {
    let (current, previous) = effective(m, bucket_at(m.window_ms, now_ms));
    current + share(previous as int, m.window_ms - now_ms % m.window_ms, m.window_ms)
}

/// `total` is at least what the window of `now_ms` counts, and at most that
/// plus all of the window before it.
pub open spec fn within_counts(m: CounterModel, now_ms: int, total: int) -> bool {
    let (current, previous) = effective(m, bucket_at(m.window_ms, now_ms));
    current <= total <= current + previous
}

/// A counter that has not been used. Every instant is as late as its latest
/// one.
pub open spec fn unused(window_ms: int) -> CounterModel {
    CounterModel { window_ms, latest_ms: i64::MIN as int, current: 0, previous: 0 }
}

/// The counter after `amount` tokens are recorded at `now_ms`.
pub open spec fn added(m: CounterModel, amount: u64, now_ms: int) -> CounterModel {
    let bucket = bucket_at(m.window_ms, now_ms);
    let latest_ms = if now_ms > m.latest_ms { now_ms } else { m.latest_ms };
    if bucket == newest(m) {
        CounterModel { latest_ms, current: saturated(m.current + amount), ..m }
    } else if bucket == newest(m) + 1 {
        CounterModel { latest_ms, current: saturated(amount as int), previous: m.current, ..m }
    } else if bucket == newest(m) - 1 {
        CounterModel { previous: saturated(m.previous + saturated(amount as int)), ..m }
    } else if bucket > newest(m) {
        CounterModel { latest_ms, current: saturated(amount as int), previous: 0, ..m }
    } else {
        m
    }
}

/// The counter once its window has another length: what it counted when it was
/// last recorded to counts as recorded at that instant.
pub open spec fn rewindowed(m: CounterModel, window_ms: int) -> CounterModel {
    CounterModel {
        window_ms,
        latest_ms: m.latest_ms,
        current: saturated(rolling_total(m, m.latest_ms)),
        previous: 0,
    }
}

/// The window length in milliseconds that a counter made for `window_ms` uses.
pub open spec fn window_length(window_ms: u64) -> int {
    if window_ms == 0 {
        1
    } else if window_ms > i64::MAX {
        i64::MAX as int
    } else {
        window_ms as int
    }
}

/// The packed word of a slot: the index in the high half, the count in the low
/// half.
pub open spec fn word_of(slot: Slot) -> int {
    slot.index * INDEX_SPAN + slot.count
}

/// The slot that a packed word stands for.
pub open spec fn slot_of(word: u64) -> Slot {
    Slot {
        index: (word as int / INDEX_SPAN as int) as u32,
        count: (word as int % INDEX_SPAN as int) as u32,
    }
}

/// A window index and a count in one word.
pub fn pack(bucket_index: u32, count: u32) -> (word: u64)
    ensures
        word as int == word_of(Slot { index: bucket_index, count }),
        slot_of(word) == (Slot { index: bucket_index, count }),
{
    assert(((bucket_index as u64) << 32) | (count as u64) == (bucket_index as u64) * 0x1_0000_0000
        + (count as u64)) by (bit_vector);
    let word: u64 = ((bucket_index as u64) << 32) | (count as u64);
    proof {
        lemma_slot_of_word(word, Slot { index: bucket_index, count });
    }
    word
}

/// The window index and the count that a word holds.
pub fn unpack(word: u64) -> (slot: (u32, u32))
    ensures
        slot == (slot_of(word).index, slot_of(word).count),
        word as int == word_of(Slot { index: slot.0, count: slot.1 }),
{
    assert((word >> 32) == word / 0x1_0000_0000) by (bit_vector);
    assert((word & 0xffff_ffff) == word % 0x1_0000_0000) by (bit_vector);
    ((word >> 32) as u32, (word & 0xffff_ffff) as u32)
}

proof fn lemma_slot_of_word(word: u64, slot: Slot)
    requires
        word as int == word_of(slot),
    ensures
        slot_of(word) == slot,
{
    assert(word as int / 0x1_0000_0000 == slot.index as int);
    assert(word as int % 0x1_0000_0000 == slot.count as int);
}

/// Law: packing a slot and unpacking the word gives the slot back, and
/// unpacking a word and packing the slot gives the word back.
pub proof fn law_packing_is_reversible(slot: Slot, word: u64)
    ensures
        0 <= word_of(slot) <= u64::MAX,
        slot_of(word_of(slot) as u64) == slot,
        word_of(slot_of(word)) == word,
{
    lemma_slot_of_word(word_of(slot) as u64, slot);
}

fn clamp_u32(value: u64) -> (clamped: u32)
    ensures
        clamped == saturated(value as int),
{
    if value > u32::MAX as u64 { u32::MAX } else { value as u32 }
}

/// True if `a` is strictly later than `b`, in wrapping comparison. The answer
/// is meaningful as long as the two are less than half the index line apart.
pub fn is_ahead(a: u32, b: u32) -> (ahead: bool)
    ensures
        ahead == later(a, b),
{
    let forward: u32 = a.wrapping_sub(b);
    0 < forward && forward < 0x8000_0000
}

/// Law: unless two indices are exactly half the index line apart, either they
/// are the same, or the first is later, or the second is, and no two of these
/// at once.
pub proof fn law_indices_are_ordered(a: u32, b: u32)
    ensures
        later(a, b) <==> 1 <= distance(a, b) < 0x8000_0000,
        !(a == b && later(a, b)),
        !(a == b && later(b, a)),
        !(later(a, b) && later(b, a)),
        distance(a, b) != 0x8000_0000 ==> a == b || later(a, b) || later(b, a),
{
}

/// A slot after `amount` tokens of the window `index` are merged into it: the
/// same window accumulates, a later one takes the slot over, an earlier one is
/// stale and changes nothing.
pub open spec fn merged(slot: Slot, index: u32, amount: u32) -> Slot {
    if slot.index == index {
        Slot { index, count: saturated(slot.count + amount) }
    } else if later(index, slot.index) {
        Slot { index, count: amount }
    } else {
        slot
    }
}

/// The previous slot after `amount` tokens of the window `index`: if it holds
/// that window the amount is added to its count, if the window is newer it
/// takes the slot over, and if it is older the amount is dropped, since stale
/// tokens must not displace fresher ones.
fn merge_into_previous(previous: u64, index: u32, amount: u32) -> (word: u64)
    ensures
        slot_of(word) == merged(slot_of(previous), index, amount),
{
    let (prev_index, prev_count) = unpack(previous);
    if prev_index == index {
        pack(index, clamp_u32(prev_count as u64 + amount as u64))
    } else if is_ahead(index, prev_index) {
        pack(index, amount)
    } else {
        previous
    }
}

/// Approximates a rolling-window token count with two fixed windows,
/// weighting the previous window's count by how much of it still overlaps
/// the rolling window. The memory it takes does not grow.
///
/// Each slot packs its window index and its count into one word, so the two
/// always change together.
#[derive(Clone, Copy)]
pub struct SlidingWindowCounter {
    window_ms: i64,
    latest_ms: i64,
    current: u64,
    previous: u64,
}

impl View for SlidingWindowCounter {
    type V = CounterModel;

    closed spec fn view(&self) -> CounterModel {
        let current = slot_of(self.current);
        let previous = slot_of(self.previous);
        CounterModel {
            window_ms: self.window_ms as int,
            latest_ms: self.latest_ms as int,
            current: current.count,
            previous: if previous.index == index_before(current.index) {
                previous.count
            } else {
                0
            },
        }
    }
}

impl SlidingWindowCounter {
    /// The window has a length, the current slot is that of the latest instant,
    /// and the previous slot is one or two windows behind it.
    #[verifier::type_invariant]
    spec fn is_in_order(self) -> bool {
        let current = slot_of(self.current);
        let previous = slot_of(self.previous);
        &&& self.window_ms > 0
        &&& current.index == index_at(bucket_at(self.window_ms as int, self.latest_ms as int))
        &&& previous.index == index_before(current.index) || previous.index == index_before(
            index_before(current.index),
        )
    }

    /// A counter of one window only, with nothing in the one before it.
    fn starting_at(window_ms: i64, latest_ms: i64, count: u32) -> (counter: Self)
        requires
            window_ms > 0,
        ensures
            counter@ == (CounterModel {
                window_ms: window_ms as int,
                latest_ms: latest_ms as int,
                current: count,
                previous: 0,
            }),
    {
        let index: u32 = index_of(bucket_of(window_ms, latest_ms));
        // Two windows back: never next to the current one, so it carries no
        // weight until a real window replaces it.
        SlidingWindowCounter {
            window_ms,
            latest_ms,
            current: pack(index, count),
            previous: pack(index.wrapping_sub(2), 0),
        }
    }

    /// A counter with nothing recorded in it. A window of no length counts as
    /// one millisecond, one longer than `i64::MAX` milliseconds as that long.
    pub fn new(window_ms: u64) -> (counter: Self)
        ensures
            counter@ == unused(window_length(window_ms)),
    {
        let window: i64 = if window_ms == 0 {
            1
        } else if window_ms > i64::MAX as u64 {
            i64::MAX
        } else {
            window_ms as i64
        };
        SlidingWindowCounter::starting_at(window, i64::MIN, 0)
    }

    /// Records `amount` tokens at `now_ms` and returns the rolling total that
    /// includes them.
    ///
    /// Tokens of the current window accumulate. The first tokens of the next
    /// window carry the old window over into the previous slot. Tokens that
    /// arrive one window late go to the previous slot, never back into the
    /// current one. After a gap the counter starts again at the window of
    /// `now_ms`. Tokens more than one window late no longer overlap the
    /// rolling window and are dropped.
    pub fn add(&mut self, amount: u64, now_ms: i64) -> (total: u64)
        ensures
            final(self)@ == added(old(self)@, amount, now_ms as int),
            total as int == rolling_total(final(self)@, now_ms as int),
            within_counts(final(self)@, now_ms as int, total as int),
    {
        proof {
            use_type_invariant(&*self);
            lemma_neighbouring_indices(newest(self@));
            lemma_later_bucket_is_later(self@.window_ms, now_ms as int, self@.latest_ms);
        }
        let bucket: i64 = bucket_of(self.window_ms, now_ms);
        let newest: i64 = bucket_of(self.window_ms, self.latest_ms);
        let ahead: i128 = bucket as i128 - newest as i128;
        let new_index: u32 = index_of(bucket);
        let (old_index, old_count) = unpack(self.current);
        if ahead == 0 {
            let count: u32 = clamp_u32((old_count as u64).saturating_add(amount));
            *self =
            SlidingWindowCounter {
                window_ms: self.window_ms,
                latest_ms: if now_ms > self.latest_ms {
                    now_ms
                } else {
                    self.latest_ms
                },
                current: pack(old_index, count),
                previous: self.previous,
            };
        } else if ahead == 1 {
            *self =
            SlidingWindowCounter {
                window_ms: self.window_ms,
                latest_ms: now_ms,
                current: pack(new_index, clamp_u32(amount)),
                previous: merge_into_previous(self.previous, old_index, old_count),
            };
        } else if ahead == -1 {
            *self =
            SlidingWindowCounter {
                window_ms: self.window_ms,
                latest_ms: self.latest_ms,
                current: self.current,
                previous: merge_into_previous(self.previous, new_index, clamp_u32(amount)),
            };
        } else if ahead > 1 {
            *self = SlidingWindowCounter::starting_at(self.window_ms, now_ms, clamp_u32(amount));
        }
        self.estimate(now_ms)
    }

    /// The counter with a window of another length. What it counted when it was
    /// last recorded to counts as recorded at that instant.
    pub(crate) fn with_window_of(&self, other: &Self) -> (counter: Self)
        ensures
            counter@ == if self@.window_ms == other@.window_ms {
                self@
            } else {
                rewindowed(self@, other@.window_ms)
            },
    {
        if self.window_ms == other.window_ms {
            return *self;
        }
        proof {
            use_type_invariant(other);
        }
        let total: u64 = self.estimate(self.latest_ms);
        SlidingWindowCounter::starting_at(other.window_ms, self.latest_ms, clamp_u32(total))
    }

    /// The rolling total at `now_ms`.
    pub fn estimate(&self, now_ms: i64) -> (total: u64)
        ensures
            total as int == rolling_total(self@, now_ms as int),
            within_counts(self@, now_ms as int, total as int),
    {
        proof {
            use_type_invariant(self);
            law_total_lies_between_counts(self@, now_ms as int);
        }
        let bucket: i64 = bucket_of(self.window_ms, now_ms);
        let newest: i64 = bucket_of(self.window_ms, self.latest_ms);
        let ahead: i128 = bucket as i128 - newest as i128;
        let (cur_index, cur_count) = unpack(self.current);
        let (prev_index, prev_count) = unpack(self.previous);
        let (current, previous): (u32, u32) = if ahead == 0 {
            (cur_count, if prev_index == cur_index.wrapping_sub(1) { prev_count } else { 0 })
        } else if ahead == 1 {
            (0, cur_count)
        } else {
            (0, 0)
        };
        self.weighted_total(current, previous, bucket, now_ms)
    }

    fn weighted_total(&self, current: u32, previous: u32, bucket: i64, now_ms: i64) -> (total: u64)
        requires
            bucket == bucket_at(self@.window_ms, now_ms as int),
        ensures
            total as int == current + share(
                previous as int,
                self@.window_ms - now_ms as int % self@.window_ms,
                self@.window_ms,
            ),
    {
        proof {
            use_type_invariant(self);
            lemma_fundamental_div_mod(now_ms as int, self.window_ms as int);
            assert(self.window_ms * bucket == bucket * self.window_ms) by (nonlinear_arith);
        }
        let window: i128 = self.window_ms as i128;
        let elapsed: i128 = now_ms as i128 - bucket as i128 * window;
        let remaining: u128 = (window - elapsed) as u128;
        let whole: u128 = window as u128;
        proof {
            lemma_share_bounds(previous as int, remaining as int, whole as int);
            assert(0 <= previous * remaining <= 0xffff_ffff * 0x7fff_ffff_ffff_ffff)
                by (nonlinear_arith)
                requires
                    0 <= previous <= 0xffff_ffff,
                    0 <= remaining <= 0x7fff_ffff_ffff_ffff,
            ;
        }
        let weighted: u128 = (2 * (previous as u128 * remaining) + whole) / (2 * whole);
        current as u64 + weighted as u64
    }
}

/// The number of the window that holds the instant `now_ms`.
fn bucket_of(window_ms: i64, now_ms: i64) -> (bucket: i64)
    requires
        window_ms > 0,
    ensures
        bucket == bucket_at(window_ms as int, now_ms as int),
{
    proof {
        lemma_bucket_fits(window_ms as int, now_ms as int);
    }
    if now_ms >= 0 {
        now_ms / window_ms
    } else {
        -((-(now_ms + 1)) / window_ms) - 1
    }
}

/// The place of a window on the wrapping index line.
fn index_of(bucket: i64) -> (index: u32)
    ensures
        index == index_at(bucket as int),
{
    if bucket >= 0 {
        (bucket as u64 % INDEX_SPAN) as u32
    } else {
        let before: u64 = (-(bucket + 1)) as u64 % INDEX_SPAN;
        (INDEX_SPAN - 1 - before) as u32
    }
}

proof fn lemma_bucket_fits(window_ms: int, now_ms: int)
    requires
        window_ms > 0,
    ensures
        now_ms >= 0 ==> 0 <= now_ms / window_ms <= now_ms,
        now_ms < 0 ==> now_ms / window_ms == -((-(now_ms + 1)) / window_ms) - 1 && 0 <= (-(now_ms
            + 1)) / window_ms <= -(now_ms + 1),
{
    if now_ms >= 0 {
        assert(0 <= now_ms / window_ms <= now_ms) by (nonlinear_arith)
            requires
                now_ms >= 0,
                window_ms > 0,
        ;
    } else {
        let before = (-(now_ms + 1)) / window_ms;
        let rest = (-(now_ms + 1)) % window_ms;
        assert(0 <= before <= -(now_ms + 1)) by (nonlinear_arith)
            requires
                before == (-(now_ms + 1)) / window_ms,
                now_ms < 0,
                window_ms > 0,
        ;
        assert(-(now_ms + 1) == window_ms * before + rest) by (nonlinear_arith)
            requires
                before == (-(now_ms + 1)) / window_ms,
                rest == (-(now_ms + 1)) % window_ms,
                window_ms > 0,
        ;
        assert(now_ms / window_ms == -before - 1) by (nonlinear_arith)
            requires
                -(now_ms + 1) == window_ms * before + rest,
                0 <= rest < window_ms,
                window_ms > 0,
        ;
    }
}

/// Neighbouring windows have neighbouring indices.
proof fn lemma_neighbouring_indices(bucket: int)
    ensures
        index_at(bucket) == index_before(index_at(bucket + 1)),
        index_at(bucket - 1) == index_before(index_at(bucket)),
        later(index_at(bucket), index_at(bucket - 1)),
        later(index_at(bucket), index_before(index_at(bucket - 1))),
        later(index_at(bucket - 1), index_before(index_at(bucket - 1))),
{
}

/// A later window begins at a later instant.
proof fn lemma_later_bucket_is_later(window_ms: int, a: int, b: int)
    requires
        window_ms > 0,
    ensures
        bucket_at(window_ms, a) > bucket_at(window_ms, b) ==> a > b,
        bucket_at(window_ms, a) < bucket_at(window_ms, b) ==> a < b,
{
    if a <= b {
        lemma_div_is_ordered(a, b, window_ms);
    }
    if b <= a {
        lemma_div_is_ordered(b, a, window_ms);
    }
}

/// A share of an amount is never more than the amount.
proof fn lemma_share_bounds(amount: int, part: int, whole: int)
    requires
        0 <= amount,
        0 <= part <= whole,
        0 < whole,
    ensures
        0 <= share(amount, part, whole) <= amount,
        part == whole ==> share(amount, part, whole) == amount,
{
    assert(0 <= amount * part <= amount * whole) by (nonlinear_arith)
        requires
            0 <= amount,
            0 <= part <= whole,
    ;
    assert(0 <= (2 * (amount * part) + whole) / (2 * whole) <= amount) by (nonlinear_arith)
        requires
            0 <= amount * part <= amount * whole,
            0 < whole,
            0 <= amount,
    ;
    if part == whole {
        assert((2 * (amount * whole) + whole) / (2 * whole) == amount) by (nonlinear_arith)
            requires
                0 <= amount,
                0 < whole,
        ;
    }
}

/// A larger share of more is more.
proof fn lemma_share_is_ordered(less: int, more: int, part: int, larger: int, whole: int)
    requires
        0 <= less <= more,
        0 <= part <= larger,
        0 < whole,
    ensures
        share(less, part, whole) <= share(more, larger, whole),
{
    assert(less * part <= more * larger) by (nonlinear_arith)
        requires
            0 <= less <= more,
            0 <= part <= larger,
    ;
    lemma_div_is_ordered(2 * (less * part) + whole, 2 * (more * larger) + whole, 2 * whole);
}

/// Law: the rolling total is at least the count of the current window and at
/// most that count plus the whole of the window before it.
pub proof fn law_total_lies_between_counts(m: CounterModel, now_ms: int)
    requires
        m.window_ms > 0,
    ensures
        within_counts(m, now_ms, rolling_total(m, now_ms)),
{
    lemma_share_bounds(
        effective(m, bucket_at(m.window_ms, now_ms)).1 as int,
        m.window_ms - now_ms % m.window_ms,
        m.window_ms,
    );
}

/// Law: at the very start of a window the window before it still counts in
/// full.
pub proof fn law_previous_counts_in_full_at_window_start(m: CounterModel, bucket: int)
    requires
        m.window_ms > 0,
    ensures
        rolling_total(m, bucket * m.window_ms) == effective(m, bucket).0 + effective(m, bucket).1,
{
    let w = m.window_ms;
    assert((bucket * w) / w == bucket) by (nonlinear_arith)
        requires
            w > 0,
    ;
    vstd::arithmetic::div_mod::lemma_mod_multiples_basic(bucket, m.window_ms);
    lemma_share_bounds(effective(m, bucket).1 as int, m.window_ms, m.window_ms);
}

/// Law: usage only ages out. From the latest instant that anything was recorded
/// at, the rolling total never grows until something more is recorded, within a
/// window or across windows, and two windows on it is zero.
pub proof fn law_total_only_ages_out(m: CounterModel, earlier_ms: int, later_ms: int)
    requires
        m.window_ms > 0,
        m.latest_ms <= earlier_ms <= later_ms,
    ensures
        rolling_total(m, later_ms) <= rolling_total(m, earlier_ms),
        bucket_at(m.window_ms, later_ms) >= bucket_at(m.window_ms, earlier_ms) + 2
            ==> rolling_total(m, later_ms) == 0,
{
    let w = m.window_ms;
    lemma_div_is_ordered(m.latest_ms, earlier_ms, w);
    lemma_div_is_ordered(earlier_ms, later_ms, w);
    law_total_lies_between_counts(m, earlier_ms);
    law_total_lies_between_counts(m, later_ms);
    if bucket_at(w, earlier_ms) == bucket_at(w, later_ms) {
        lemma_fundamental_div_mod(earlier_ms, w);
        lemma_fundamental_div_mod(later_ms, w);
        let previous = effective(m, bucket_at(w, later_ms)).1 as int;
        lemma_share_is_ordered(previous, previous, w - later_ms % w, w - earlier_ms % w, w);
    }
}

/// Law: two whole windows after the latest instant that anything was recorded
/// at, nothing counts any more.
pub proof fn law_gap_resets_to_zero(m: CounterModel, now_ms: int)
    requires
        m.window_ms > 0,
        m.latest_ms + 2 * m.window_ms <= now_ms,
    ensures
        rolling_total(m, now_ms) == 0,
{
    let w = m.window_ms;
    lemma_div_is_ordered(m.latest_ms + 2 * w, now_ms, w);
    assert((m.latest_ms + 2 * w) / w == m.latest_ms / w + 2) by (nonlinear_arith)
        requires
            w > 0,
    ;
    law_total_lies_between_counts(m, now_ms);
}

/// Law: tokens recorded in the latest window or after it raise the rolling
/// total by exactly their number, unless a 32-bit count is exhausted.
pub proof fn law_recorded_tokens_count_in_full(m: CounterModel, amount: u64, now_ms: int)
    requires
        m.window_ms > 0,
        bucket_at(m.window_ms, now_ms) >= newest(m),
        effective(m, bucket_at(m.window_ms, now_ms)).0 + amount <= u32::MAX,
    ensures
        rolling_total(added(m, amount, now_ms), now_ms) == rolling_total(m, now_ms) + amount,
{
    lemma_latest_follows(m, amount, now_ms);
}

/// Law: tokens that come one window late land in that window and take nothing
/// from the latest one: at its start the rolling total is higher by exactly
/// their number, and at no instant of it is the total lower than it was.
pub proof fn law_late_tokens_count_in_their_window(
    m: CounterModel,
    amount: u64,
    now_ms: int,
    then_ms: int,
)
    requires
        m.window_ms > 0,
        bucket_at(m.window_ms, now_ms) == newest(m) - 1,
        m.previous + amount <= u32::MAX,
        bucket_at(m.window_ms, then_ms) == newest(m),
    ensures
        rolling_total(added(m, amount, now_ms), newest(m) * m.window_ms) == rolling_total(
            m,
            newest(m) * m.window_ms,
        ) + amount,
        rolling_total(added(m, amount, now_ms), then_ms) >= rolling_total(m, then_ms),
{
    let after = added(m, amount, now_ms);
    law_previous_counts_in_full_at_window_start(m, newest(m));
    law_previous_counts_in_full_at_window_start(after, newest(m));
    let remaining = m.window_ms - then_ms % m.window_ms;
    lemma_share_is_ordered(
        m.previous as int,
        after.previous as int,
        remaining,
        remaining,
        m.window_ms,
    );
}

/// Law: a counter whose window changes keeps what it counted when it was last
/// recorded to, unless a 32-bit count is exhausted, and forgets it two of the
/// new windows later.
pub proof fn law_a_new_window_keeps_what_it_covers(m: CounterModel, window_ms: int, now_ms: int)
    requires
        m.window_ms > 0,
        window_ms > 0,
        rolling_total(m, m.latest_ms) <= u32::MAX,
    ensures
        rolling_total(rewindowed(m, window_ms), m.latest_ms) == rolling_total(m, m.latest_ms),
        m.latest_ms + 2 * window_ms <= now_ms ==> rolling_total(rewindowed(m, window_ms), now_ms)
            == 0,
{
    law_total_lies_between_counts(m, m.latest_ms);
    law_total_lies_between_counts(rewindowed(m, window_ms), m.latest_ms);
    if m.latest_ms + 2 * window_ms <= now_ms {
        law_gap_resets_to_zero(rewindowed(m, window_ms), now_ms);
    }
}

/// What is recorded moves the latest window on, and never back.
proof fn lemma_latest_follows(m: CounterModel, amount: u64, now_ms: int)
    requires
        m.window_ms > 0,
    ensures
        added(m, amount, now_ms).window_ms == m.window_ms,
        newest(added(m, amount, now_ms)) == if bucket_at(m.window_ms, now_ms) > newest(m) {
            bucket_at(m.window_ms, now_ms)
        } else {
            newest(m)
        },
{
    lemma_later_bucket_is_later(m.window_ms, now_ms, m.latest_ms);
}

/// A counter after a sequence of amounts, each recorded at its instant.
pub open spec fn run(m: CounterModel, adds: Seq<(u64, int)>) -> CounterModel
    decreases adds.len(),
{
    if adds.len() == 0 {
        m
    } else {
        added(run(m, adds.drop_last()), adds.last().0, adds.last().1)
    }
}

/// Law: usage only ages out, whatever was recorded before: for a counter that
/// has seen these amounts and no others, the rolling total never grows from the
/// last of their instants on, and two windows on it is zero.
pub proof fn law_usage_only_ages_out(
    window_ms: int,
    adds: Seq<(u64, int)>,
    earlier_ms: int,
    later_ms: int,
)
    requires
        window_ms > 0,
        i64::MIN <= earlier_ms <= later_ms,
        forall|i: int| 0 <= i < adds.len() ==> (#[trigger] adds[i]).1 <= earlier_ms,
    ensures
        rolling_total(run(unused(window_ms), adds), later_ms) <= rolling_total(
            run(unused(window_ms), adds),
            earlier_ms,
        ),
        bucket_at(window_ms, later_ms) >= bucket_at(window_ms, earlier_ms) + 2 ==> rolling_total(
            run(unused(window_ms), adds),
            later_ms,
        ) == 0,
{
    lemma_latest_is_one_of(window_ms, adds, earlier_ms);
    law_total_only_ages_out(run(unused(window_ms), adds), earlier_ms, later_ms);
}

proof fn lemma_latest_is_one_of(window_ms: int, adds: Seq<(u64, int)>, bound_ms: int)
    requires
        i64::MIN <= bound_ms,
        forall|i: int| 0 <= i < adds.len() ==> (#[trigger] adds[i]).1 <= bound_ms,
    ensures
        run(unused(window_ms), adds).window_ms == window_ms,
        run(unused(window_ms), adds).latest_ms <= bound_ms,
    decreases adds.len(),
{
    if adds.len() > 0 {
        let rest = adds.drop_last();
        assert forall|i: int| 0 <= i < rest.len() implies (#[trigger] rest[i]).1 <= bound_ms by {
            assert(rest[i] == adds[i]);
        }
        lemma_latest_is_one_of(window_ms, rest, bound_ms);
        assert(adds[adds.len() - 1] == adds.last());
    }
}

/// The tokens of `adds` that fall into a window.
pub open spec fn tokens_in(window_ms: int, adds: Seq<(u64, int)>, bucket: int) -> nat
    decreases adds.len(),
{
    if adds.len() == 0 {
        0
    } else {
        tokens_in(window_ms, adds.drop_last(), bucket) + if bucket_at(window_ms, adds.last().1)
            == bucket {
            adds.last().0 as nat
        } else {
            0
        }
    }
}

/// Some amount of `adds` falls into a window.
pub open spec fn reaches(window_ms: int, adds: Seq<(u64, int)>, bucket: int) -> bool {
    exists|i: int|
        0 <= i < adds.len() && bucket_at(window_ms, (#[trigger] adds[i]).1) == bucket
}

/// Law: writers on both sides of a window boundary compose. However amounts
/// of a window and of the next one are interleaved, none is lost: in the end
/// each window holds exactly the tokens that fell into it.
pub proof fn law_adds_across_a_boundary_are_not_lost(
    m: CounterModel,
    adds: Seq<(u64, int)>,
    next: int,
)
    requires
        m.window_ms > 0,
        newest(m) == next - 1,
        forall|i: int|
            0 <= i < adds.len() ==> ({
                let bucket = bucket_at(m.window_ms, (#[trigger] adds[i]).1);
                bucket == next || bucket == next - 1
            }),
        m.current + tokens_in(m.window_ms, adds, next - 1) <= u32::MAX,
        tokens_in(m.window_ms, adds, next) <= u32::MAX,
    ensures
        ({
            let end = run(m, adds);
            let carried = m.current + tokens_in(m.window_ms, adds, next - 1);
            &&& end.window_ms == m.window_ms
            &&& if reaches(m.window_ms, adds, next) {
                &&& newest(end) == next
                &&& end.current == tokens_in(m.window_ms, adds, next)
                &&& end.previous == carried
            } else {
                &&& newest(end) == next - 1
                &&& end.current == carried
                &&& end.previous == m.previous
                &&& tokens_in(m.window_ms, adds, next) == 0
            }
        }),
    decreases adds.len(),
{
    if adds.len() > 0 {
        let rest = adds.drop_last();
        let w = m.window_ms;
        assert forall|i: int| 0 <= i < rest.len() implies ({
            let bucket = bucket_at(m.window_ms, (#[trigger] rest[i]).1);
            bucket == next || bucket == next - 1
        }) by {
            assert(rest[i] == adds[i]);
        }
        law_adds_across_a_boundary_are_not_lost(m, rest, next);
        assert(adds[adds.len() - 1] == adds.last());
        lemma_latest_follows(run(m, rest), adds.last().0, adds.last().1);
        if reaches(w, rest, next) {
            let i = choose|i: int|
                0 <= i < rest.len() && bucket_at(w, (#[trigger] rest[i]).1) == next;
            assert(adds[i] == rest[i]);
        } else if bucket_at(w, adds.last().1) != next {
            assert forall|i: int| 0 <= i < adds.len() implies bucket_at(
                w,
                (#[trigger] adds[i]).1,
            ) != next by {
                if i < rest.len() {
                    assert(rest[i] == adds[i]);
                }
            }
        }
    }
}

/// What the counter already counts for a window that is not behind its latest
/// one.
pub open spec fn counted(m: CounterModel, bucket: int) -> int {
    if bucket == newest(m) { m.current as int } else { 0 }
}

/// Law: as long as the rolling total stays within a ceiling, so do all the
/// tokens recorded in the window. (A ceiling of `u32::MAX` or more is beyond
/// what a 32-bit count can show.)
pub proof fn law_accepted_tokens_stay_within_ceiling(
    m: CounterModel,
    adds: Seq<(u64, int)>,
    now_ms: int,
    ceiling: u64,
)
    requires
        m.window_ms > 0,
        bucket_at(m.window_ms, now_ms) >= newest(m),
        forall|i: int|
            0 <= i < adds.len() ==> bucket_at(m.window_ms, (#[trigger] adds[i]).1) == bucket_at(
                m.window_ms,
                now_ms,
            ),
        rolling_total(run(m, adds), now_ms) <= ceiling < u32::MAX,
    ensures
        counted(m, bucket_at(m.window_ms, now_ms)) + tokens_in(
            m.window_ms,
            adds,
            bucket_at(m.window_ms, now_ms),
        ) <= ceiling,
{
    let bucket = bucket_at(m.window_ms, now_ms);
    if adds.len() > 0 {
        lemma_single_window(m, adds, bucket);
    }
    law_total_lies_between_counts(run(m, adds), now_ms);
}

proof fn lemma_single_window(m: CounterModel, adds: Seq<(u64, int)>, bucket: int)
    requires
        adds.len() > 0,
        m.window_ms > 0,
        bucket >= newest(m),
        forall|i: int|
            0 <= i < adds.len() ==> bucket_at(m.window_ms, (#[trigger] adds[i]).1) == bucket,
    ensures
        run(m, adds).window_ms == m.window_ms,
        newest(run(m, adds)) == bucket,
        run(m, adds).current == saturated(
            counted(m, bucket) + tokens_in(m.window_ms, adds, bucket),
        ),
    decreases adds.len(),
{
    let rest = adds.drop_last();
    assert(adds[adds.len() - 1] == adds.last());
    if rest.len() > 0 {
        assert forall|i: int| 0 <= i < rest.len() implies bucket_at(
            m.window_ms,
            (#[trigger] rest[i]).1,
        ) == bucket by {
            assert(rest[i] == adds[i]);
        }
        lemma_single_window(m, rest, bucket);
    } else {
        assert(run(m, rest) == m);
        assert(tokens_in(m.window_ms, rest, bucket) == 0);
    }
    lemma_latest_follows(run(m, rest), adds.last().0, adds.last().1);
}

/// The tokens of `adds` recorded at an instant from `from_ms` on and before
/// `to_ms`.
pub open spec fn tokens_between(adds: Seq<(u64, int)>, from_ms: int, to_ms: int) -> nat
    decreases adds.len(),
{
    if adds.len() == 0 {
        0
    } else {
        tokens_between(adds.drop_last(), from_ms, to_ms) + if from_ms <= adds.last().1 < to_ms {
            adds.last().0 as nat
        } else {
            0
        }
    }
}

proof fn lemma_instants_of_a_bucket(w: int, now_ms: int, bucket: int)
    requires
        w > 0,
    ensures
        bucket_at(w, now_ms) == bucket <==> bucket * w <= now_ms < bucket * w + w,
{
    let q = now_ms / w;
    assert(q * w <= now_ms < q * w + w) by (nonlinear_arith)
        requires
            q == now_ms / w,
            w > 0,
    ;
    if bucket * w <= now_ms < bucket * w + w {
        assert(q == bucket) by (nonlinear_arith)
            requires
                q * w <= now_ms < q * w + w,
                bucket * w <= now_ms < bucket * w + w,
                w > 0,
        ;
    }
}

proof fn lemma_bucket_tokens(w: int, adds: Seq<(u64, int)>, bucket: int)
    requires
        w > 0,
    ensures
        tokens_in(w, adds, bucket) == tokens_between(adds, bucket * w, bucket * w + w),
    decreases adds.len(),
{
    if adds.len() > 0 {
        lemma_bucket_tokens(w, adds.drop_last(), bucket);
        lemma_instants_of_a_bucket(w, adds.last().1, bucket);
    }
}

/// The slots of a counter hold what fell into their windows, and nothing fell
/// into a later one.
proof fn lemma_slots_are_exact(w: int, adds: Seq<(u64, int)>, now_ms: int)
    requires
        w > 0,
        i64::MIN <= now_ms,
        forall|i: int|
            0 <= i < adds.len() ==> i64::MIN <= (#[trigger] adds[i]).1 && bucket_at(w, adds[i].1)
                <= bucket_at(w, now_ms),
    ensures
        ({
            let m = run(unused(w), adds);
            &&& m.window_ms == w
            &&& newest(unused(w)) <= newest(m) <= bucket_at(w, now_ms)
            &&& m.current == saturated(tokens_in(w, adds, newest(m)) as int)
            &&& m.previous == saturated(tokens_in(w, adds, newest(m) - 1) as int)
            &&& forall|b: int| b > newest(m) ==> #[trigger] tokens_in(w, adds, b) == 0
        }),
    decreases adds.len(),
{
    lemma_div_is_ordered(i64::MIN as int, now_ms, w);
    if adds.len() > 0 {
        let rest = adds.drop_last();
        assert forall|i: int| 0 <= i < rest.len() implies i64::MIN <= (#[trigger] rest[i]).1
            && bucket_at(w, rest[i].1) <= bucket_at(w, now_ms) by {
            assert(rest[i] == adds[i]);
        }
        lemma_slots_are_exact(w, rest, now_ms);
        assert(adds[adds.len() - 1] == adds.last());
        let before = run(unused(w), rest);
        let amount = adds.last().0;
        let at = adds.last().1;
        let q = bucket_at(w, at);
        lemma_latest_follows(before, amount, at);
        lemma_div_is_ordered(i64::MIN as int, at, w);
        let m = run(unused(w), adds);
        assert(m == added(before, amount, at));
        assert(tokens_in(w, rest, newest(before) + 1) == 0);
        assert(q > newest(before) ==> tokens_in(w, rest, q) == 0);
        assert(q - 1 > newest(before) ==> tokens_in(w, rest, q - 1) == 0);
        assert forall|b: int| b > newest(m) implies #[trigger] tokens_in(w, adds, b) == 0 by {
            assert(tokens_in(w, rest, b) == 0);
        }
    }
}

proof fn lemma_share_is_nearest(amount: int, part: int, whole: int)
    requires
        0 < whole,
    ensures
        2 * whole * share(amount, part, whole) <= 2 * (amount * part) + whole,
        2 * (amount * part) + whole < 2 * whole * share(amount, part, whole) + 2 * whole,
{
    lemma_fundamental_div_mod(2 * (amount * part) + whole, 2 * whole);
}

/// Law: the rolling total is exact. Take a counter that was made for a window of
/// `window_ms` and has seen these amounts, in any order, none of them later
/// than the window of `now_ms`. Its total is the tokens of that window, plus
/// those of the window before it in the proportion of what is left of the
/// window of `now_ms`, rounded to the nearest integer. (Each window counts up
/// to `u32::MAX` tokens.)
pub proof fn law_rolling_total_is_exact(window_ms: u64, adds: Seq<(u64, int)>, now_ms: int)
    requires
        1 <= window_ms <= i64::MAX,
        i64::MIN <= now_ms,
        forall|i: int|
            0 <= i < adds.len() ==> i64::MIN <= (#[trigger] adds[i]).1 && adds[i].1
                / window_ms as int <= now_ms / window_ms as int,
    ensures
        ({
            let w = window_ms as int;
            let start = now_ms - now_ms % w;
            let here = tokens_between(adds, start, start + w);
            let before = tokens_between(adds, start - w, start);
            let here = if here <= u32::MAX { here as int } else { u32::MAX as int };
            let before = if before <= u32::MAX { before as int } else { u32::MAX as int };
            let weighted = rolling_total(run(unused(window_length(window_ms)), adds), now_ms)
                - here;
            &&& 2 * w * weighted <= 2 * (before * (start + w - now_ms)) + w
            &&& 2 * (before * (start + w - now_ms)) + w < 2 * w * weighted + 2 * w
        }),
{
    let w = window_ms as int;
    assert(window_length(window_ms) == w);
    let m = run(unused(w), adds);
    let b = bucket_at(w, now_ms);
    assert forall|i: int| 0 <= i < adds.len() implies i64::MIN <= (#[trigger] adds[i]).1
        && bucket_at(w, adds[i].1) <= bucket_at(w, now_ms) by {}
    lemma_slots_are_exact(w, adds, now_ms);
    lemma_fundamental_div_mod(now_ms, w);
    let start = now_ms - now_ms % w;
    assert(w * b == b * w) by (nonlinear_arith);
    assert((b - 1) * w == b * w - w) by (nonlinear_arith);
    assert(start == b * w);
    lemma_bucket_tokens(w, adds, b);
    lemma_bucket_tokens(w, adds, b - 1);
    assert(b > newest(m) ==> tokens_in(w, adds, b) == 0);
    assert(b - 1 > newest(m) ==> tokens_in(w, adds, b - 1) == 0);
    let (current, previous) = effective(m, b);
    assert(current == saturated(tokens_in(w, adds, b) as int));
    assert(previous == saturated(tokens_in(w, adds, b - 1) as int));
    lemma_share_is_nearest(previous as int, w - now_ms % w, w);
}

/// Law: a counter made for a window of so many milliseconds has a window of
/// exactly that length, as far as instants can show.
pub proof fn law_windows_have_their_length(window_ms: u64)
    ensures
        1 <= window_ms <= i64::MAX ==> window_length(window_ms) == window_ms,
        window_ms == 0 ==> window_length(window_ms) == 1,
        window_ms > i64::MAX ==> window_length(window_ms) == i64::MAX,
{
}

/// Law: a counter whose window changes counts from then on like one that was
/// made for the new window and had what was counted recorded at the latest
/// instant, unless a 32-bit count is exhausted.
pub proof fn law_a_new_window_counts_like_a_new_counter(
    m: CounterModel,
    window_ms: int,
    now_ms: int,
)
    requires
        m.window_ms > 0,
        window_ms > 0,
        i64::MIN <= m.latest_ms,
        rolling_total(m, m.latest_ms) <= u32::MAX,
    ensures
        rewindowed(m, window_ms).window_ms == window_ms,
        rolling_total(rewindowed(m, window_ms), now_ms) == rolling_total(
            added(unused(window_ms), rolling_total(m, m.latest_ms) as u64, m.latest_ms),
            now_ms,
        ),
{
    law_total_lies_between_counts(m, m.latest_ms);
    lemma_div_is_ordered(i64::MIN as int, m.latest_ms, window_ms);
}

/// Law: a word holds the number of the window in its high 32 bits and the count
/// in its low 32 bits.
pub proof fn law_words_hold_index_and_count(slot: Slot, word: u64)
    ensures
        word_of(slot) == slot.index * 0x1_0000_0000 + slot.count,
        slot_of(word).index == word as int / 0x1_0000_0000,
        slot_of(word).count == word as int % 0x1_0000_0000,
{
}

/// Law: of two indices, the later one is the one that less than half the index
/// line leads up to from the other, across its end too.
pub proof fn law_later_indices_lie_ahead(a: u32, b: u32)
    ensures
        later(a, b) <==> 0 < (if a >= b { a - b } else { a - b + 0x1_0000_0000 }) < 0x8000_0000,
{
}

/// Law: at an instant before the latest window that anything was recorded in,
/// nothing is known to count.
pub proof fn law_nothing_counts_before_the_latest_window(m: CounterModel, now_ms: int)
    requires
        m.window_ms > 0,
        now_ms / m.window_ms < m.latest_ms / m.window_ms,
    ensures
        rolling_total(m, now_ms) == 0,
{
    law_total_lies_between_counts(m, now_ms);
}

/// Law: tokens that come more than one window late are dropped, and tokens that
/// come late at all leave the latest instant where it is.
pub proof fn law_very_late_tokens_are_dropped(m: CounterModel, amount: u64, now_ms: int)
    requires
        m.window_ms > 0,
    ensures
        now_ms / m.window_ms < m.latest_ms / m.window_ms - 1 ==> added(m, amount, now_ms) == m,
        added(m, amount, now_ms).latest_ms == if now_ms > m.latest_ms { now_ms } else {
            m.latest_ms
        },
        added(m, amount, now_ms).window_ms == m.window_ms,
{
    if now_ms > m.latest_ms {
        lemma_div_is_ordered(m.latest_ms, now_ms, m.window_ms);
    } else {
        lemma_div_is_ordered(now_ms, m.latest_ms, m.window_ms);
    }
}

} // verus!
