//! Ordering the time slices of a time-based wallpaper and deciding, slice by
//! slice, which embedded image is shown and which slice follows.
//!
//! A slice's time is a fraction of the day held as an `f32`; the library
//! holds it as its IEEE-754 bit pattern (`f32::to_bits`) and orders slices by
//! the numeric value that the pattern denotes.
use vstd::prelude::*;
use crate::schema::xml::StartTime;
use crate::util::{to_rem_hours, to_rem_min, to_rem_sec};
use vstd::arithmetic::power2::{pow2, lemma_pow2_pos, lemma_pow2_unfold, lemma_pow2_strictly_increases};

verus! {

/// One entry of the property list's time table.
#[derive(Clone, Copy, Debug, PartialEq, Eq, Structural)]
pub struct TimeSlice {
    /// The bit pattern of the slice's time (an `f32` fraction of the day).
    pub time_bits: u32,
    /// The index, among the top-level images, of the image shown from this time on.
    pub idx: usize,
}

/// The magnitude bits of an `f32` bit pattern (everything but the sign).
pub open spec fn magnitude_bits(bits: u32) -> int {
    bits as int % 0x8000_0000
}

/// Whether an `f32` bit pattern has its sign bit set.
pub open spec fn sign_bit(bits: u32) -> bool {
    bits >= 0x8000_0000
}

/// Whether an `f32` bit pattern denotes NaN: all exponent bits set and a
/// non-zero fraction.
pub open spec fn is_nan_bits(bits: u32) -> bool {
    magnitude_bits(bits) > 0x7f80_0000
}

/// The magnitude with the sign applied. For patterns that are not NaN this
/// orders exactly as the numbers they denote (IEEE-754 stores the magnitude
/// so that larger magnitudes have larger patterns), and `-0.0` and `0.0`
/// both come out as `0`.
pub open spec fn signed_magnitude(bits: u32) -> int {
    if sign_bit(bits) { -magnitude_bits(bits) } else { magnitude_bits(bits) }
}

/// The key by which slices are ordered: the signed magnitude moved into
/// the range of a `u32`.
pub open spec fn time_order_key(bits: u32) -> int {
    0x8000_0000 + signed_magnitude(bits)
}

/// The exponent field of an `f32` bit pattern.
pub open spec fn f32_exponent_field(bits: u32) -> int {
    magnitude_bits(bits) / 0x80_0000
}

/// Whether an `f32` bit pattern denotes a finite number (exponent field below 255).
pub open spec fn is_finite_bits(bits: u32) -> bool {
    f32_exponent_field(bits) < 255
}

/// The absolute value denoted by finite magnitude bits `m`, times 2^149
/// (an integer for every finite `f32`): a subnormal is its fraction; a normal
/// number with exponent field `e` and fraction `f` is `(2^23 + f) * 2^(e - 1)`.
pub open spec fn scaled_abs_value(m: int) -> int {
    let e = m / 0x80_0000;
    let f = m % 0x80_0000;
    if e == 0 { f } else { (0x80_0000 + f) * pow2((e - 1) as nat) }
}

/// The number that a finite `f32` bit pattern denotes, times 2^149.
pub open spec fn f32_scaled_value(bits: u32) -> int {
    if sign_bit(bits) {
        -scaled_abs_value(magnitude_bits(bits))
    } else {
        scaled_abs_value(magnitude_bits(bits))
    }
}

/// Larger finite magnitude bits denote larger numbers.
proof fn lemma_scaled_abs_value_increases(m1: int, m2: int)
    requires
        0 <= m1 < m2 < 255 * 0x80_0000,
    ensures
        scaled_abs_value(m1) < scaled_abs_value(m2),
        0 <= scaled_abs_value(m1),
{
    let e1 = m1 / 0x80_0000;
    let f1 = m1 % 0x80_0000;
    let e2 = m2 / 0x80_0000;
    let f2 = m2 % 0x80_0000;
    assert(m1 == e1 * 0x80_0000 + f1 && 0 <= f1 < 0x80_0000);
    assert(m2 == e2 * 0x80_0000 + f2 && 0 <= f2 < 0x80_0000);
    assert(0 <= e1 <= e2) by (nonlinear_arith)
        requires m1 == e1 * 0x80_0000 + f1, m2 == e2 * 0x80_0000 + f2, 0 <= f1 < 0x80_0000,
            0 <= f2 < 0x80_0000, 0 <= m1 < m2;
    if e1 > 0 {
        lemma_pow2_pos((e1 - 1) as nat);
        let p = pow2((e1 - 1) as nat) as int;
        assert((0x80_0000 + f1) * p >= 0) by (nonlinear_arith) requires p > 0, f1 >= 0;
    }
    if e1 == e2 {
        assert(f1 < f2) by (nonlinear_arith)
            requires m1 == e1 * 0x80_0000 + f1, m2 == e1 * 0x80_0000 + f2, m1 < m2;
        if e1 > 0 {
            lemma_pow2_pos((e1 - 1) as nat);
            let p = pow2((e1 - 1) as nat) as int;
            assert((0x80_0000 + f1) * p < (0x80_0000 + f2) * p) by (nonlinear_arith)
                requires p > 0, f1 < f2;
        }
    } else {
        // The first number lies below 2^23 * 2^e1, the second at or above
        // 2^23 * 2^(e2 - 1), and e1 <= e2 - 1.
        let lo = pow2((e2 - 1) as nat) as int;
        lemma_pow2_pos((e2 - 1) as nat);
        assert(scaled_abs_value(m2) >= 0x80_0000 * lo) by (nonlinear_arith)
            requires scaled_abs_value(m2) == (0x80_0000 + f2) * lo, f2 >= 0, lo > 0;
        let hi = pow2(e1 as nat) as int;
        if e1 as nat == (e2 - 1) as nat {
            assert(hi == lo);
        } else {
            lemma_pow2_strictly_increases(e1 as nat, (e2 - 1) as nat);
        }
        assert(hi <= lo);
        if e1 == 0 {
            lemma_pow2_pos(0);
            assert(pow2(0) == 1) by { vstd::arithmetic::power2::lemma2_to64(); }
            assert(scaled_abs_value(m1) < 0x80_0000 * hi);
        } else {
            lemma_pow2_unfold(e1 as nat);
            let p = pow2((e1 - 1) as nat) as int;
            assert(hi == 2 * p);
            assert((0x80_0000 + f1) * p < 0x80_0000 * hi) by (nonlinear_arith)
                requires hi == 2 * p, p > 0, f1 < 0x80_0000;
        }
        assert(0x80_0000 * hi <= 0x80_0000 * lo) by (nonlinear_arith) requires hi <= lo;
    }
}

/// Slices are ordered by the numbers their times denote: for two finite
/// `f32` bit patterns, the ordering key of `a` is smaller than that of `b`
/// exactly when `a` denotes a smaller number, and the keys are equal exactly
/// when the numbers are (so `-0.0` and `0.0` tie). Negative infinity comes
/// before every finite time and positive infinity after.
pub proof fn lemma_time_key_orders_by_value(a: u32, b: u32)
    requires
        !is_nan_bits(a),
        !is_nan_bits(b),
    ensures
        is_finite_bits(a) && is_finite_bits(b) ==> {
            &&& (time_order_key(a) < time_order_key(b) <==> f32_scaled_value(a) < f32_scaled_value(b))
            &&& (time_order_key(a) == time_order_key(b) <==> f32_scaled_value(a) == f32_scaled_value(b))
        },
        is_finite_bits(a) && b == 0x7f80_0000u32 ==> time_order_key(a) < time_order_key(b),
        a == 0xff80_0000u32 && is_finite_bits(b) ==> time_order_key(a) < time_order_key(b),
{
    let ma = magnitude_bits(a);
    let mb = magnitude_bits(b);
    if is_finite_bits(a) && is_finite_bits(b) {
        assert(ma < 255 * 0x80_0000 && mb < 255 * 0x80_0000);
        if ma < mb {
            lemma_scaled_abs_value_increases(ma, mb);
        } else if mb < ma {
            lemma_scaled_abs_value_increases(mb, ma);
        }
        if ma > 0 {
            lemma_scaled_abs_value_increases(0, ma);
        }
        if mb > 0 {
            lemma_scaled_abs_value_increases(0, mb);
        }
        assert(scaled_abs_value(0) == 0);
    }
}

/// The slice at position `a` comes before the slice at position `b`: an
/// earlier time, or the same time and an earlier position (the order is stable).
pub open spec fn slice_precedes(slices: Seq<TimeSlice>, a: int, b: int) -> bool {
    let ka = time_order_key(slices[a].time_bits);
    let kb = time_order_key(slices[b].time_bits);
    ka < kb || (ka == kb && a < b)
}

/// `order` lists the positions of `slices` by time: every position once,
/// earlier times first, slices with equal times in their original order.
pub open spec fn is_time_order(slices: Seq<TimeSlice>, order: Seq<usize>) -> bool {
    &&& order.len() == slices.len()
    &&& forall|k: int| 0 <= k < order.len() ==> (#[trigger] order[k]) < slices.len()
    &&& forall|p: usize| p < slices.len() ==> #[trigger] order.contains(p)
    &&& forall|i: int, j: int|
        0 <= i < j < order.len() ==> slice_precedes(slices, #[trigger] order[i] as int, #[trigger] order[j] as int)
}

/// The time order of a list of slices is unique: two lists that both order
/// the positions of `slices` by time (stably) are the same list.
pub proof fn lemma_time_order_unique(slices: Seq<TimeSlice>, o1: Seq<usize>, o2: Seq<usize>)
    requires
        is_time_order(slices, o1),
        is_time_order(slices, o2),
    ensures
        o1 == o2,
{
    if o1.len() > 0 {
        lemma_orders_agree_up_to(slices, o1, o2, o1.len() - 1);
    }
    assert(o1 =~= o2);
}

/// Two time orders agree on every place up to `k`.
proof fn lemma_orders_agree_up_to(slices: Seq<TimeSlice>, o1: Seq<usize>, o2: Seq<usize>, k: int)
    requires
        is_time_order(slices, o1),
        is_time_order(slices, o2),
        0 <= k < o1.len(),
    ensures
        forall|j: int| 0 <= j <= k ==> o1[j] == o2[j],
    decreases k,
{
    if k > 0 {
        lemma_orders_agree_up_to(slices, o1, o2, k - 1);
    }
    let a = o1[k];
    let b = o2[k];
    if a != b {
        if slice_precedes(slices, a as int, b as int) {
            // `a` stands somewhere in `o2`: before `k` it would stand twice in
            // `o1`, after `k` it would come after `b`.
            assert(o2.contains(a));
            let j = choose|j: int| 0 <= j < o2.len() && o2[j] == a;
            if j < k {
                assert(o1[j] == a);
                assert(slice_precedes(slices, o1[j] as int, o1[k] as int));
            } else {
                assert(slice_precedes(slices, o2[k] as int, o2[j] as int));
            }
        } else {
            assert(slice_precedes(slices, b as int, a as int));
            assert(o1.contains(b));
            let j = choose|j: int| 0 <= j < o1.len() && o1[j] == b;
            if j < k {
                assert(o2[j] == b);
                assert(slice_precedes(slices, o2[j] as int, o2[k] as int));
            } else {
                assert(slice_precedes(slices, o1[k] as int, o1[j] as int));
            }
        }
    }
}

/// Slices that are already in time order keep their order: the time order
/// of such a list is `0, 1, 2, ...`.
pub proof fn lemma_sorted_slices_keep_order(slices: Seq<TimeSlice>, order: Seq<usize>)
    requires
        slices.len() <= usize::MAX,
        forall|a: int, b: int| 0 <= a < b < slices.len() ==>
            time_order_key(#[trigger] slices[a].time_bits) <= time_order_key(#[trigger] slices[b].time_bits),
        is_time_order(slices, order),
    ensures
        forall|k: int| 0 <= k < order.len() ==> #[trigger] order[k] == k,
{
    let identity = Seq::new(slices.len(), |k: int| k as usize);
    assert forall|p: usize| p < slices.len() implies #[trigger] identity.contains(p) by {
        assert(identity[p as int] == p);
    }
    assert forall|i: int, j: int| 0 <= i < j < identity.len() implies
        slice_precedes(slices, #[trigger] identity[i] as int, #[trigger] identity[j] as int) by {
        assert(identity[i] == i as usize && identity[j] == j as usize);
        assert(time_order_key(slices[i].time_bits) <= time_order_key(slices[j].time_bits));
    }
    assert(is_time_order(slices, identity));
    lemma_time_order_unique(slices, order, identity);
    assert forall|k: int| 0 <= k < order.len() implies #[trigger] order[k] == k by {
        assert(identity[k] == k as usize);
    }
}

/// Whether any slice time is NaN.
pub open spec fn has_nan_time(slices: Seq<TimeSlice>) -> bool {
    exists|p: int| 0 <= p < slices.len() && is_nan_bits(#[trigger] slices[p].time_bits)
}

/// The ordering key of a time's bit pattern.
pub fn time_key(bits: u32) -> (key: u32)
    ensures
        key as int == time_order_key(bits),
{
    let magnitude = bits % 0x8000_0000;
    if bits >= 0x8000_0000 {
        0x8000_0000 - magnitude
    } else {
        0x8000_0000 + magnitude
    }
}

/// Whether a time's bit pattern is NaN.
pub fn time_is_nan(bits: u32) -> (nan: bool)
    ensures
        nan == is_nan_bits(bits),
{
    bits % 0x8000_0000 > 0x7f80_0000
}

/// Whether any slice time is NaN.
pub fn any_time_is_nan(slices: &Vec<TimeSlice>) -> (nan: bool)
    ensures
        nan == has_nan_time(slices@),
{
    let mut p: usize = 0;
    while p < slices.len()
        invariant
            p <= slices@.len(),
            forall|q: int| 0 <= q < p ==> !is_nan_bits(#[trigger] slices@[q].time_bits),
        decreases slices@.len() - p,
    {
        if time_is_nan(slices[p].time_bits) {
            return true;
        }
        p = p + 1;
    }
    false
}

/// The positions of `slices` ordered by time, equal times kept in their
/// original order (the order of a stable sort by time). The times are
/// compared as numbers, so a NaN among two or more slices is refused, as
/// comparing it fails.
pub fn order_time_slices(slices: &Vec<TimeSlice>) -> (order: Vec<usize>)
    requires
        slices@.len() < 2 || !has_nan_time(slices@),
    ensures
        is_time_order(slices@, order@),
{
    let n = slices.len();
    let mut order: Vec<usize> = Vec::new();
    let mut i: usize = 0;
    while i < n
        invariant
            n == slices@.len(),
            i <= n,
            order@.len() == i,
            forall|k: int| 0 <= k < order@.len() ==> (#[trigger] order@[k]) < i,
            forall|p: usize| p < i ==> #[trigger] order@.contains(p),
            forall|a: int, b: int|
                0 <= a < b < order@.len() ==> slice_precedes(slices@, #[trigger] order@[a] as int, #[trigger] order@[b] as int),
        decreases n - i,
    {
        let key = time_key(slices[i].time_bits);
        let mut pos: usize = 0;
        while pos < order.len() && time_key(slices[order[pos]].time_bits) <= key
            invariant
                n == slices@.len(),
                i < n,
                key as int == time_order_key(slices@[i as int].time_bits),
                pos <= order@.len(),
                forall|k: int| 0 <= k < order@.len() ==> (#[trigger] order@[k]) < i,
                forall|a: int| 0 <= a < pos ==> time_order_key(slices@[(#[trigger] order@[a]) as int].time_bits) <= key,
            decreases order@.len() - pos,
        {
            pos = pos + 1;
        }
        let ghost old_order = order@;
        proof {
            assert forall|a: int| pos <= a < old_order.len() implies
                time_order_key(slices@[(#[trigger] old_order[a]) as int].time_bits) > key by {
                if a > pos {
                    assert(slice_precedes(slices@, old_order[pos as int] as int, old_order[a] as int));
                }
            }
            old_order.insert_ensures(pos as int, i);
        }
        order.insert(pos, i);
        proof {
            let new_order = order@;
            assert forall|k: int| 0 <= k < new_order.len() implies (#[trigger] new_order[k]) < i + 1 by {
                if k < pos {
                    assert(new_order[k] == old_order[k]);
                } else if k > pos {
                    assert(new_order[k] == old_order[k - 1]);
                }
            }
            assert forall|p: usize| p < i + 1 implies #[trigger] new_order.contains(p) by {
                if p < i {
                    assert(old_order.contains(p));
                    let k = choose|k: int| 0 <= k < old_order.len() && old_order[k] == p;
                    if k < pos {
                        assert(new_order[k] == p);
                    } else {
                        assert(new_order[k + 1] == p);
                    }
                } else {
                    assert(new_order[pos as int] == p);
                }
            }
            assert forall|a: int, b: int| 0 <= a < b < new_order.len() implies
                slice_precedes(slices@, #[trigger] new_order[a] as int, #[trigger] new_order[b] as int) by {
                if b < pos {
                    assert(new_order[a] == old_order[a] && new_order[b] == old_order[b]);
                } else if b == pos {
                    assert(new_order[a] == old_order[a]);
                } else if a < pos {
                    assert(new_order[a] == old_order[a] && new_order[b] == old_order[b - 1]);
                } else if a == pos {
                    assert(new_order[b] == old_order[b - 1]);
                } else {
                    assert(new_order[a] == old_order[a - 1] && new_order[b] == old_order[b - 1]);
                }
            }
        }
        i = i + 1;
    }
    order
}

/// The start of the cycle for a first slice at `start_seconds` seconds after
/// midnight: 1 October 2011 at that time of day.
pub fn start_time_at(start_seconds: u16) -> (start: StartTime)
    ensures
        start.year == 2011,
        start.month == 10,
        start.day == 1,
        start.hour == start_seconds / 3600,
        start.minute == (start_seconds / 60) % 60,
        start.second == start_seconds % 60,
{
    StartTime {
        year: 2011,
        month: 10,
        day: 1,
        hour: to_rem_hours(start_seconds),
        minute: to_rem_min(start_seconds),
        second: to_rem_sec(start_seconds),
    }
}

/// What to do for the slice shown at one place of the cycle.
#[derive(Clone, Copy, Debug, PartialEq, Eq, Structural)]
pub struct SliceStep {
    /// The place in the cycle (0 for the earliest slice).
    pub index: usize,
    /// The slice's position in the property list.
    pub slice: usize,
    /// The position in the property list of the slice that follows in time;
    /// none for the last slice of the day.
    pub next_slice: Option<usize>,
    /// The id of the image that the slice names; none if the slice names an
    /// image beyond the top-level images.
    pub img_id: Option<u32>,
}

/// The step for place `k` of the cycle, given the time order `order`.
pub open spec fn step_for(slices: Seq<TimeSlice>, image_ids: Seq<u32>, order: Seq<usize>, k: int) -> SliceStep {
    let slice = order[k];
    SliceStep {
        index: k as usize,
        slice: slice,
        next_slice: if k + 1 < order.len() { Some(order[k + 1]) } else { None },
        img_id: if slices[slice as int].idx < image_ids.len() {
            Some(image_ids[slices[slice as int].idx as int])
        } else {
            None
        },
    }
}

/// Every step shows the image its slice names: whatever the place of the
/// step (the last one included), the image id is the entry of `image_ids`
/// at the slice's `idx` when there is one, and none only when `idx` lies
/// beyond `image_ids`.
pub proof fn lemma_step_shows_image_of_its_slice(
    slices: Seq<TimeSlice>,
    image_ids: Seq<u32>,
    order: Seq<usize>,
    k: int,
)
    requires
        slices.len() <= usize::MAX,
        is_time_order(slices, order),
        0 <= k < order.len(),
    ensures
        ({
            let step = step_for(slices, image_ids, order, k);
            let idx = slices[step.slice as int].idx;
            &&& step.index == k
            &&& step.slice < slices.len()
            &&& (idx < image_ids.len() ==> step.img_id == Some(image_ids[idx as int]))
            &&& (idx >= image_ids.len() ==> step.img_id is None)
        }),
{
    assert(order[k] < slices.len());
}

/// The steps of a time-based wallpaper, one per slice in time order: each
/// names its place, its slice, the slice that follows it, and the image id
/// that its slice's `idx` selects among `image_ids`.
pub fn plan_time_based_wallpaper(slices: &Vec<TimeSlice>, image_ids: &Vec<u32>) -> (steps: Vec<SliceStep>)
    requires
        slices@.len() < 2 || !has_nan_time(slices@),
    ensures
        exists|order: Seq<usize>| {
            &&& is_time_order(slices@, order)
            &&& steps@.len() == order.len()
            &&& forall|k: int| 0 <= k < order.len() ==> #[trigger] steps@[k] == step_for(slices@, image_ids@, order, k)
        },
        forall|k: int| 0 <= k < steps@.len() - 1 ==> (#[trigger] steps@[k]).next_slice == Some(steps@[k + 1].slice),
        steps@.len() > 0 ==> steps@[steps@.len() - 1].next_slice is None,
        forall|k: int| 0 <= k < steps@.len() ==> (#[trigger] steps@[k]).index == k && steps@[k].slice < slices@.len(),
        forall|k: int| 0 <= k < steps@.len() ==> (#[trigger] steps@[k]).img_id == (
            if slices@[steps@[k].slice as int].idx < image_ids@.len() {
                Some(image_ids@[slices@[steps@[k].slice as int].idx as int])
            } else {
                None
            }),
{
    let order = order_time_slices(slices);
    let n = order.len();
    let mut steps: Vec<SliceStep> = Vec::new();
    let mut k: usize = 0;
    while k < n
        invariant
            n == order@.len(),
            is_time_order(slices@, order@),
            k <= n,
            steps@.len() == k,
            forall|j: int| 0 <= j < k ==> #[trigger] steps@[j] == step_for(slices@, image_ids@, order@, j),
        decreases n - k,
    {
        let slice = order[k];
        let next_slice = if k + 1 < n { Some(order[k + 1]) } else { None };
        let idx = slices[slice].idx;
        let img_id = if idx < image_ids.len() { Some(image_ids[idx]) } else { None };
        steps.push(SliceStep { index: k, slice, next_slice, img_id });
        k = k + 1;
    }
    steps
}

} // verus!
