//! Tabulated functions.
//!
//! The oscillator's waveform and the distortion's transfer curve are handed
//! to the library as tables of samples of the function, taken at equal
//! distances; between two samples the library interpolates linearly. A table
//! is bounded by one: a value beyond is brought back to the bound when the
//! table is made.

use vstd::prelude::*;
use crate::fixed::{add_raw, mul_raw, sub_raw, Fixed, ONE_RAW};

verus! {

/// The raw encoding of the point that lies the fraction `w` of the way from
/// `a` to `b`.
pub open spec fn lerp_raw(a: int, b: int, w: int) -> int {
    add_raw(a, mul_raw(w, sub_raw(b, a)))
}

/// The point that lies the fraction `w` of the way from `a` to `b`.
pub fn lerp(a: Fixed, b: Fixed, w: Fixed) -> (r: Fixed)
    ensures
        r@ == lerp_raw(a@, b@, w@),
{
    a.saturating_add(w.mul(b.saturating_sub(a)))
}

/// A raw encoding lies between minus one and one.
pub open spec fn within_one(x: int) -> bool {
    -ONE_RAW <= x <= ONE_RAW
}

/// Every value of the table lies between minus one and one, and there is at
/// least one.
pub open spec fn bounded_table(values: Seq<Fixed>) -> bool {
    &&& values.len() >= 1
    &&& forall|i: int| 0 <= i < values.len() ==> within_one((#[trigger] values[i])@)
}

/// A raw encoding brought into the range from minus one to one.
pub open spec fn clamped_to_one(x: int) -> int {
    if x < -ONE_RAW {
        -ONE_RAW as int
    } else if x > ONE_RAW {
        ONE_RAW as int
    } else {
        x
    }
}

/// The table that is made of `values`: each value brought into the range from
/// minus one to one; a single zero if there are none.
pub open spec fn table_of(values: Seq<Fixed>) -> Seq<Fixed> {
    if values.len() == 0 {
        seq![Fixed { raw: 0 }]
    } else {
        Seq::new(values.len(), |i: int| Fixed { raw: clamped_to_one(values[i]@) as i64 })
    }
}

/// Between two values that lie within one, a fraction of the way lies within
/// one, and between the two.
pub proof fn lemma_lerp_between(a: int, b: int, w: int)
    requires
        within_one(a),
        within_one(b),
        0 <= w <= ONE_RAW,
    ensures
        within_one(lerp_raw(a, b, w)),
        a <= b ==> a <= lerp_raw(a, b, w) <= b,
        b <= a ==> b <= lerp_raw(a, b, w) <= a,
        w == 0 ==> lerp_raw(a, b, w) == a,
{
    let d = b - a;
    let one = ONE_RAW as int;
    if d >= 0 {
        assert(0 <= w * d <= one * d) by (nonlinear_arith)
            requires
                0 <= w <= one,
                d >= 0,
        ;
        assert(0 <= (w * d) / one <= d) by (nonlinear_arith)
            requires
                0 <= w * d <= one * d,
                one > 0,
        ;
    } else {
        assert(0 <= -(w * d) <= one * (-d)) by (nonlinear_arith)
            requires
                0 <= w <= one,
                d < 0,
        ;
        assert(0 <= (-(w * d)) / one <= -d) by (nonlinear_arith)
            requires
                0 <= -(w * d) <= one * (-d),
                one > 0,
        ;
        if w * d >= 0 {
            assert(w * d == 0);
        }
    }
    if w == 0 {
        assert(w * d == 0) by (nonlinear_arith)
            requires
                w == 0,
        ;
    }
}

/// Makes a table of `values`.
pub fn make_table(values: Vec<Fixed>) -> (table: Vec<Fixed>)
    ensures
        table@ == table_of(values@),
        bounded_table(table@),
{
    let mut table: Vec<Fixed> = Vec::new();
    if values.len() == 0 {
        table.push(Fixed::zero());
        assert(table@ =~= table_of(values@));
        return table;
    }
    let mut i: usize = 0;
    while i < values.len()
        invariant
            i <= values.len(),
            table.len() == i,
            forall|k: int|
                0 <= k < i ==> (#[trigger] table[k]) == (Fixed {
                    raw: clamped_to_one(values[k]@) as i64,
                }),
        decreases values.len() - i,
    {
        let value = values[i];
        let bounded = if value.raw < -ONE_RAW {
            Fixed::from_raw(-ONE_RAW)
        } else if value.raw > ONE_RAW {
            Fixed::one()
        } else {
            value
        };
        table.push(bounded);
        i = i + 1;
    }
    assert(table@ =~= table_of(values@));
    table
}

/// The value of a periodic function at `phase`, a raw encoding of a fraction
/// of the period: the table covers one period, and behind its last value its
/// first one follows. Whole periods in the phase do not count, and an empty
/// table is the function that is zero everywhere.
pub open spec fn cyclic_raw(table: Seq<Fixed>, phase: int) -> int {
    if table.len() == 0 {
        0
    } else {
        let place = (phase % (ONE_RAW as int)) * table.len();
        let slot = place / (ONE_RAW as int);
        let fraction = place % (ONE_RAW as int);
        lerp_raw(table[slot]@, table[(slot + 1) % (table.len() as int)]@, fraction)
    }
}

/// Looks a periodic function up at `phase`.
pub fn cyclic_lookup(table: &Vec<Fixed>, phase: u64) -> (r: Fixed)
    ensures
        r@ == cyclic_raw(table@, phase as int),
{
    if table.len() == 0 {
        return Fixed::zero();
    }
    let phase: u64 = phase % 4294967296u64;
    let count: u128 = table.len() as u128;
    assert(0 <= (phase as u128) * count < 0x1_0000_0000 * count) by (nonlinear_arith)
        requires
            0 <= phase < 0x1_0000_0000,
            count >= 1,
    ;
    let place: u128 = (phase as u128) * count;
    let slot: usize = (place / 4294967296u128) as usize;
    let fraction: i64 = (place % 4294967296u128) as i64;
    assert(slot < table.len());
    let next: usize = if slot + 1 == table.len() { 0 } else { slot + 1 };
    assert(next == (slot + 1) % (table.len() as int)) by {
        if slot + 1 == table.len() {
            vstd::arithmetic::div_mod::lemma_mod_self_0(table.len() as int);
        } else {
            vstd::arithmetic::div_mod::lemma_small_mod((slot + 1) as nat, table.len() as nat);
        }
    }
    lerp(table[slot], table[next], Fixed::from_raw(fraction))
}

/// A periodic function whose table is bounded by one is bounded by one, and
/// at phase zero it has the table's first value.
pub proof fn lemma_cyclic_bounded(table: Seq<Fixed>, phase: int)
    requires
        bounded_table(table),
        0 <= phase < ONE_RAW,
    ensures
        within_one(cyclic_raw(table, phase)),
        phase == 0 ==> cyclic_raw(table, phase) == table[0]@,
{
    let one = ONE_RAW as int;
    let count = table.len() as int;
    assert(phase % one == phase);
    let place = phase * count;
    assert(0 <= place < one * count) by (nonlinear_arith)
        requires
            0 <= phase < one,
            count >= 1,
            place == phase * count,
    ;
    let slot = place / one;
    assert(0 <= slot < count) by (nonlinear_arith)
        requires
            0 <= place < one * count,
            slot == place / one,
            one > 0,
    ;
    let next = (slot + 1) % count;
    assert(0 <= next < count);
    lemma_lerp_between(table[slot]@, table[next]@, place % one);
    if phase == 0 {
        assert(place == 0) by (nonlinear_arith)
            requires
                place == phase * count,
                phase == 0,
        ;
    }
}

/// The distance between two integers.
pub open spec fn distance(a: int, b: int) -> int {
    if a <= b {
        b - a
    } else {
        a - b
    }
}

/// The distance between the value in slot `slot` of the table and the next,
/// the first value being the next of the last.
pub open spec fn neighbour_gap(table: Seq<Fixed>, slot: int) -> int {
    distance(table[slot]@, table[(slot + 1) % (table.len() as int)]@)
}

/// Neighbouring values of the table differ by at most `step`, the last value
/// and the first being neighbours too.
pub open spec fn table_steps_within(table: Seq<Fixed>, step: int) -> bool {
    forall|i: int| 0 <= i < table.len() ==> #[trigger] neighbour_gap(table, i) <= step
}

/// The value of a periodic function at the fraction `fraction` of the way
/// from slot `slot` of its table to the next, times one and before rounding.
#[verifier::opaque]
pub open spec fn ramp(table: Seq<Fixed>, slot: int, fraction: int) -> int {
    table[slot]@ * ONE_RAW + fraction * (table[(slot + 1) % (table.len() as int)]@ - table[slot]@)
}

/// Within one slot the unrounded value moves by at most `step` per unit of
/// the way.
proof fn lemma_ramp_within(table: Seq<Fixed>, step: int, slot: int, from: int, to: int)
    requires
        table_steps_within(table, step),
        0 <= slot < table.len(),
        0 <= from <= to,
    ensures
        distance(ramp(table, slot, from), ramp(table, slot, to)) <= step * (to - from),
{
    reveal(ramp);
    let a = table[slot]@;
    let b = table[(slot + 1) % (table.len() as int)]@;
    let d = b - a;
    assert(neighbour_gap(table, slot) <= step);
    assert(ramp(table, slot, to) - ramp(table, slot, from) == (to - from) * d) by (nonlinear_arith)
        requires
            ramp(table, slot, to) == a * ONE_RAW + to * d,
            ramp(table, slot, from) == a * ONE_RAW + from * d,
    ;
    assert(-(step * (to - from)) <= (to - from) * d <= step * (to - from)) by (nonlinear_arith)
        requires
            -step <= d <= step,
            to - from >= 0,
    ;
}

/// At the start of a slot the unrounded value is the slot's value, and at
/// its end it is the next slot's.
proof fn lemma_ramp_ends(table: Seq<Fixed>, slot: int)
    requires
        0 <= slot < table.len(),
    ensures
        ramp(table, slot, 0) == table[slot]@ * ONE_RAW,
        ramp(table, slot, ONE_RAW as int) == table[(slot + 1) % (table.len() as int)]@ * ONE_RAW,
{
    reveal(ramp);
    let a = table[slot]@;
    let b = table[(slot + 1) % (table.len() as int)]@;
    let one = ONE_RAW as int;
    assert(a * one + 0 * (b - a) == a * one) by (nonlinear_arith);
    assert(a * one + one * (b - a) == b * one) by (nonlinear_arith);
}

/// From any place of the table to any later one the unrounded value moves by
/// at most `step` per unit of the way.
proof fn lemma_ramp_across(
    table: Seq<Fixed>,
    step: int,
    slot: int,
    from: int,
    later_slot: int,
    to: int,
)
    requires
        table_steps_within(table, step),
        0 <= slot <= later_slot < table.len(),
        0 <= from <= ONE_RAW,
        0 <= to <= ONE_RAW,
        slot * ONE_RAW + from <= later_slot * ONE_RAW + to,
    ensures
        distance(ramp(table, slot, from), ramp(table, later_slot, to)) <= step * ((later_slot
            * ONE_RAW + to) - (slot * ONE_RAW + from)),
    decreases later_slot - slot,
{
    let one = ONE_RAW as int;
    let start = ramp(table, slot, from);
    let end = ramp(table, later_slot, to);
    let way = (later_slot * one + to) - (slot * one + from);
    if slot == later_slot {
        lemma_ramp_within(table, step, slot, from, to);
        assert(way == to - from);
    } else {
        let before = later_slot - 1;
        let middle = ramp(table, later_slot, 0);
        assert(before * one + one == later_slot * one) by (nonlinear_arith)
            requires
                before == later_slot - 1,
        ;
        lemma_ramp_across(table, step, slot, from, before, one);
        lemma_ramp_within(table, step, later_slot, 0, to);
        lemma_ramp_ends(table, before);
        lemma_ramp_ends(table, later_slot);
        vstd::arithmetic::div_mod::lemma_small_mod(later_slot as nat, table.len());
        assert(ramp(table, before, one) == middle);
        let first = (before * one + one) - (slot * one + from);
        assert(distance(start, middle) <= step * first);
        assert(distance(middle, end) <= step * (to - 0));
        assert(step * first + step * (to - 0) == step * way) by (nonlinear_arith)
            requires
                first + (to - 0) == way,
        ;
        assert(distance(start, end) <= distance(start, middle) + distance(middle, end));
    }
}

/// The slot of the table in which a phase falls.
#[verifier::opaque]
pub open spec fn slot_of(table: Seq<Fixed>, phase: int) -> int {
    (phase * table.len()) / (ONE_RAW as int)
}

/// The fraction of the way from its slot to the next at which a phase falls.
#[verifier::opaque]
pub open spec fn fraction_of(table: Seq<Fixed>, phase: int) -> int {
    (phase * table.len()) % (ONE_RAW as int)
}

/// The value of a periodic function is its unrounded value, rounded: the two
/// differ by less than one raw step.
proof fn lemma_cyclic_near_ramp(table: Seq<Fixed>, phase: int)
    requires
        bounded_table(table),
        0 <= phase < ONE_RAW,
    ensures
        0 <= slot_of(table, phase) < table.len(),
        0 <= fraction_of(table, phase) < ONE_RAW,
        slot_of(table, phase) * ONE_RAW + fraction_of(table, phase) == phase * table.len(),
        distance(
            cyclic_raw(table, phase) * ONE_RAW,
            ramp(table, slot_of(table, phase), fraction_of(table, phase)),
        ) < ONE_RAW,
{
    reveal(ramp);
    reveal(slot_of);
    reveal(fraction_of);
    let one = ONE_RAW as int;
    let count = table.len() as int;
    assert(phase % one == phase);
    let place = phase * count;
    assert(0 <= place < one * count) by (nonlinear_arith)
        requires
            0 <= phase < one,
            count >= 1,
            place == phase * count,
    ;
    let slot = place / one;
    let fraction = place % one;
    assert(0 <= slot < count) by (nonlinear_arith)
        requires
            0 <= place < one * count,
            slot == place / one,
            one > 0,
    ;
    vstd::arithmetic::div_mod::lemma_fundamental_div_mod(place, one);
    assert(slot * one == one * slot) by (nonlinear_arith);
    let next = (slot + 1) % count;
    assert(0 <= next < count);
    let a = table[slot]@;
    let b = table[next]@;
    let d = b - a;
    lemma_lerp_between(a, b, fraction);
    let product = fraction * d;
    let moved = crate::fixed::trunc_div(product, one);
    assert(-(2 * one * one) <= product <= 2 * one * one) by (nonlinear_arith)
        requires
            0 <= fraction <= one,
            -2 * one <= d <= 2 * one,
            product == fraction * d,
    ;
    if product >= 0 {
        vstd::arithmetic::div_mod::lemma_fundamental_div_mod(product, one);
        assert(0 <= product / one <= 2 * one) by (nonlinear_arith)
            requires
                0 <= product <= 2 * one * one,
                one > 0,
        ;
        assert(one * (product / one) == (product / one) * one) by (nonlinear_arith);
    } else {
        vstd::arithmetic::div_mod::lemma_fundamental_div_mod(-product, one);
        assert(0 <= (-product) / one <= 2 * one) by (nonlinear_arith)
            requires
                0 <= -product <= 2 * one * one,
                one > 0,
        ;
        assert(one * ((-product) / one) == ((-product) / one) * one) by (nonlinear_arith);
    }
    assert(distance(moved * one, product) < one);
    assert(cyclic_raw(table, phase) == a + moved);
    assert((a + moved) * one == a * one + moved * one) by (nonlinear_arith);
}

/// From one place of the table forward to a later one, the unrounded value
/// moves by no more than a bound on `step` times the way.
proof fn lemma_ramp_forward(
    table: Seq<Fixed>,
    step: int,
    slot: int,
    from: int,
    later_slot: int,
    to: int,
    bound: int,
)
    requires
        table_steps_within(table, step),
        0 <= slot < table.len(),
        0 <= later_slot < table.len(),
        0 <= from < ONE_RAW,
        0 <= to < ONE_RAW,
        slot * ONE_RAW + from <= later_slot * ONE_RAW + to,
        step * ((later_slot * ONE_RAW + to) - (slot * ONE_RAW + from)) <= bound,
    ensures
        distance(ramp(table, slot, from), ramp(table, later_slot, to)) <= bound,
{
    if slot > later_slot {
        assert(slot * ONE_RAW >= later_slot * ONE_RAW + ONE_RAW) by (nonlinear_arith)
            requires
                slot >= later_slot + 1,
        ;
    }
    lemma_ramp_across(table, step, slot, from, later_slot, to);
}

/// From one place of the table on to its end and from its start to an
/// earlier place, the unrounded value moves by no more than a bound on `step`
/// times the way.
proof fn lemma_ramp_around(
    table: Seq<Fixed>,
    step: int,
    slot: int,
    from: int,
    later_slot: int,
    to: int,
    bound: int,
)
    requires
        table_steps_within(table, step),
        0 <= slot < table.len(),
        0 <= later_slot < table.len(),
        0 <= from < ONE_RAW,
        0 <= to < ONE_RAW,
        step * (table.len() * ONE_RAW - (later_slot * ONE_RAW + to)) + step * (slot * ONE_RAW
            + from) <= bound,
    ensures
        distance(ramp(table, slot, from), ramp(table, later_slot, to)) <= bound,
{
    let one = ONE_RAW as int;
    let count = table.len() as int;
    let last = count - 1;
    lemma_ramp_across(table, step, later_slot, to, last, one);
    lemma_ramp_across(table, step, 0, 0, slot, from);
    lemma_ramp_ends(table, last);
    lemma_ramp_ends(table, 0);
    vstd::arithmetic::div_mod::lemma_mod_self_0(count);
    let top = ramp(table, last, one);
    let r1 = ramp(table, slot, from);
    let r2 = ramp(table, later_slot, to);
    assert(top == ramp(table, 0, 0));
    assert(last * one + one == count * one) by (nonlinear_arith)
        requires
            last == count - 1,
    ;
    assert(distance(r1, r2) <= distance(r2, top) + distance(top, r1));
}

/// The bounds on the way between two phases that lie within `gap` of each
/// other, forward or round the turn.
proof fn lemma_way_bound(step: int, count: int, low: int, high: int, gap: int)
    by (nonlinear_arith)
    requires
        step >= 0,
        count >= 1,
        0 <= low <= high < ONE_RAW,
    ensures
        low * count <= high * count,
        high - low <= gap ==> step * (high * count - low * count) <= step * (count * gap),
        low + ONE_RAW - high <= gap ==> step * (count * ONE_RAW - high * count) + step * (low
            * count) <= step * (count * gap),
{
}

/// Between two phases that lie within `gap` of each other, counted round the
/// turn, the unrounded value moves by at most `step` times the length of the
/// table times `gap`.
proof fn lemma_ramp_close(table: Seq<Fixed>, step: int, low: int, high: int, gap: int)
    requires
        bounded_table(table),
        table_steps_within(table, step),
        0 <= low <= high < ONE_RAW,
        high - low <= gap || low + ONE_RAW - high <= gap,
    ensures
        distance(
            ramp(table, slot_of(table, low), fraction_of(table, low)),
            ramp(table, slot_of(table, high), fraction_of(table, high)),
        ) <= step * (table.len() * gap),
{
    let count = table.len() as int;
    lemma_cyclic_near_ramp(table, low);
    lemma_cyclic_near_ramp(table, high);
    assert(neighbour_gap(table, 0) <= step);
    lemma_way_bound(step, count, low, high, gap);
    let bound = step * (count * gap);
    if high - low <= gap {
        lemma_ramp_forward(
            table,
            step,
            slot_of(table, low),
            fraction_of(table, low),
            slot_of(table, high),
            fraction_of(table, high),
            bound,
        );
    } else {
        lemma_ramp_around(
            table,
            step,
            slot_of(table, low),
            fraction_of(table, low),
            slot_of(table, high),
            fraction_of(table, high),
            bound,
        );
    }
}

/// Near phases give near values. Where two phases lie within `gap` of each
/// other, counted round the turn, the values of a periodic function at them
/// differ by no more than the table can move on that way, and two raw steps
/// for the rounding: their distance times one is at most `step` times the
/// length of the table times `gap`, plus twice one.
pub proof fn lemma_cyclic_close(table: Seq<Fixed>, step: int, low: int, high: int, gap: int)
    requires
        bounded_table(table),
        table_steps_within(table, step),
        0 <= low <= high < ONE_RAW,
        high - low <= gap || low + ONE_RAW - high <= gap,
    ensures
        distance(cyclic_raw(table, low), cyclic_raw(table, high)) * ONE_RAW <= step * (table.len()
            * gap) + 2 * ONE_RAW,
{
    let one = ONE_RAW as int;
    lemma_cyclic_near_ramp(table, low);
    lemma_cyclic_near_ramp(table, high);
    lemma_ramp_close(table, step, low, high, gap);
    let r1 = ramp(table, slot_of(table, low), fraction_of(table, low));
    let r2 = ramp(table, slot_of(table, high), fraction_of(table, high));
    let w1 = cyclic_raw(table, low);
    let w2 = cyclic_raw(table, high);
    let bound = step * (table.len() * gap);
    lemma_scaled_distance(w1, w2, r1, r2, bound);
}

/// Two multiples of one that lie less than one from two numbers which lie
/// within `bound` of each other lie within `bound` plus twice one.
proof fn lemma_scaled_distance(w1: int, w2: int, r1: int, r2: int, bound: int)
    requires
        distance(w1 * ONE_RAW, r1) < ONE_RAW,
        distance(w2 * ONE_RAW, r2) < ONE_RAW,
        distance(r1, r2) <= bound,
    ensures
        distance(w1, w2) * ONE_RAW <= bound + 2 * ONE_RAW,
{
    let one = ONE_RAW as int;
    if w1 <= w2 {
        assert((w2 - w1) * one == w2 * one - w1 * one) by (nonlinear_arith);
    } else {
        assert((w1 - w2) * one == w1 * one - w2 * one) by (nonlinear_arith);
    }
}

/// The value of a function on the range from minus `range` to `range` at
/// `x`, which is first brought into that range: the table's first value
/// belongs to minus `range`, its last to `range`. A range below the smallest
/// positive encoding is raised to it, and an empty table is the function that
/// is zero everywhere.
pub open spec fn ranged_raw(table: Seq<Fixed>, range: int, x: int) -> int {
    if table.len() == 0 {
        0
    } else {
        ranged_value(table, range, x)
    }
}

/// The value of a function on a range, for a table that is not empty.
pub open spec fn ranged_value(table: Seq<Fixed>, range: int, x: int) -> int {
    let reach = if range < 1 {
        1
    } else {
        range
    };
    let at = if x < -reach {
        0
    } else if x > reach {
        2 * reach
    } else {
        x + reach
    };
    let scaled = at * (table.len() - 1);
    let slot = scaled / (2 * reach);
    let fraction = ((scaled % (2 * reach)) * ONE_RAW) / (2 * reach);
    let next = if slot + 1 < table.len() {
        slot + 1
    } else {
        slot
    };
    lerp_raw(table[slot]@, table[next]@, fraction)
}

/// Looks a function on the range from minus `range` to `range` up at `x`.
pub fn ranged_lookup(table: &Vec<Fixed>, range: Fixed, x: Fixed) -> (r: Fixed)
    ensures
        r@ == ranged_raw(table@, range@, x@),
{
    if table.len() == 0 {
        return Fixed::zero();
    }
    let reach: i128 = if range.raw < 1 { 1 } else { range.raw as i128 };
    let wide: i128 = x.raw as i128;
    let at: u128 = if wide < -reach {
        0
    } else if wide > reach {
        (2 * reach) as u128
    } else {
        (wide + reach) as u128
    };
    let span: u128 = (2 * reach) as u128;
    let steps: u128 = (table.len() - 1) as u128;
    assert(0 <= at * steps <= span * steps <= 0xffff_ffff_ffff_fffe * 0xffff_ffff_ffff_ffff)
        by (nonlinear_arith)
        requires
            0 <= at <= span <= 0xffff_ffff_ffff_fffe,
            0 <= steps <= 0xffff_ffff_ffff_ffff,
    ;
    let scaled: u128 = at * steps;
    let slot_wide: u128 = scaled / span;
    assert(slot_wide <= steps) by (nonlinear_arith)
        requires
            slot_wide == scaled / span,
            0 <= scaled <= span * steps,
            span > 0,
    ;
    let slot: usize = slot_wide as usize;
    let rest: u128 = scaled % span;
    assert(0 <= rest * 4294967296 < span * 4294967296 <= 0xffff_ffff_ffff_fffe * 4294967296)
        by (nonlinear_arith)
        requires
            0 <= rest < span <= 0xffff_ffff_ffff_fffe,
    ;
    let fraction_wide: u128 = (rest * 4294967296u128) / span;
    assert(fraction_wide < 4294967296) by (nonlinear_arith)
        requires
            fraction_wide == (rest * 4294967296) / (span as int),
            0 <= rest * 4294967296 < span * 4294967296,
            span > 0,
    ;
    let fraction: i64 = fraction_wide as i64;
    let next: usize = if slot + 1 < table.len() { slot + 1 } else { slot };
    lerp(table[slot], table[next], Fixed::from_raw(fraction))
}

/// A function on a range whose table is bounded by one is bounded by one.
pub proof fn lemma_ranged_bounded(table: Seq<Fixed>, range: int, x: int)
    requires
        bounded_table(table),
    ensures
        within_one(ranged_raw(table, range, x)),
{
    let reach = if range < 1 {
        1
    } else {
        range
    };
    let at = if x < -reach {
        0
    } else if x > reach {
        2 * reach
    } else {
        x + reach
    };
    let steps = table.len() - 1;
    let span = 2 * reach;
    let scaled = at * steps;
    assert(0 <= scaled <= span * steps) by (nonlinear_arith)
        requires
            0 <= at <= span,
            steps >= 0,
            scaled == at * steps,
    ;
    let slot = scaled / span;
    assert(0 <= slot <= steps) by (nonlinear_arith)
        requires
            slot == scaled / span,
            0 <= scaled <= span * steps,
            span > 0,
    ;
    let rest = scaled % span;
    let fraction = (rest * ONE_RAW) / span;
    assert(0 <= fraction <= ONE_RAW) by (nonlinear_arith)
        requires
            fraction == (rest * ONE_RAW) / span,
            0 <= rest < span,
    ;
    let next = if slot + 1 < table.len() {
        slot + 1
    } else {
        slot
    };
    lemma_lerp_between(table[slot]@, table[next]@, fraction);
}

} // verus!
