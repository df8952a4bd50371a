//! Derived metrics of a series: total impulse by the trapezoidal rule, and
//! the summary statistics of thrust and time.
//!
//! Sample fields are millionths, so a product of a thrust and a time is in
//! units of 10^-12 N·s. Results are again millionths, rounded down.

use vstd::prelude::*;
use vstd::arithmetic::div_mod::lemma_fundamental_div_mod_converse;
use crate::sample::{time_ordered, Sample};

verus! {

/// Twice the impulse between sample `i - 1` and sample `i`, in units of
/// 10^-12 N·s: the sum of the two thrusts times the time between them.
pub open spec fn impulse_term(s: Seq<Sample>, i: int) -> int {
    (s[i].thrust + s[i - 1].thrust) * (s[i].time - s[i - 1].time)
}

/// Twice the trapezoidal integral of thrust over time along `s`, in units
/// of 10^-12 N·s.
pub open spec fn impulse_sum(s: Seq<Sample>) -> int
    decreases s.len(),
{
    if s.len() < 2 {
        0
    } else {
        impulse_sum(s.drop_last()) + impulse_term(s, s.len() - 1)
    }
}

/// The total impulse of `s` in millionths of a newton second, rounded down.
pub open spec fn impulse_of(s: Seq<Sample>) -> int {
    impulse_sum(s) / 2_000_000
}

/// The sum of the terms of [`impulse_sum`] that are positive.
pub open spec fn impulse_gained(s: Seq<Sample>) -> nat
    decreases s.len(),
{
    if s.len() < 2 {
        0
    } else if impulse_term(s, s.len() - 1) > 0 {
        impulse_gained(s.drop_last()) + impulse_term(s, s.len() - 1) as nat
    } else {
        impulse_gained(s.drop_last())
    }
}

/// The sum of the magnitudes of the terms of [`impulse_sum`] that are
/// negative.
pub open spec fn impulse_lost(s: Seq<Sample>) -> nat
    decreases s.len(),
{
    if s.len() < 2 {
        0
    } else if impulse_term(s, s.len() - 1) < 0 {
        impulse_lost(s.drop_last()) + (-impulse_term(s, s.len() - 1)) as nat
    } else {
        impulse_lost(s.drop_last())
    }
}

/// Whether the impulse of `s` can be computed in 128 bits: the positive
/// terms together, and the negative terms together, each stay below 2^128.
pub open spec fn impulse_in_range(s: Seq<Sample>) -> bool {
    impulse_gained(s) <= u128::MAX && impulse_lost(s) <= u128::MAX
}

/// The sum of all thrusts of `s`.
pub open spec fn thrust_total(s: Seq<Sample>) -> int
    decreases s.len(),
{
    if s.len() == 0 {
        0
    } else {
        thrust_total(s.drop_last()) + s.last().thrust
    }
}

/// The greatest thrust of `s`; of no meaning for an empty series.
pub open spec fn peak_thrust(s: Seq<Sample>) -> int
    decreases s.len(),
{
    if s.len() <= 1 {
        s[0].thrust as int
    } else if peak_thrust(s.drop_last()) >= s.last().thrust {
        peak_thrust(s.drop_last())
    } else {
        s.last().thrust as int
    }
}

/// The mean thrust of `s`, rounded down; of no meaning for an empty series.
pub open spec fn mean_thrust(s: Seq<Sample>) -> int {
    thrust_total(s) / (s.len() as int)
}

/// The time from the first sample of `s` to its last; of no meaning for an
/// empty series.
pub open spec fn span(s: Seq<Sample>) -> int {
    s.last().time - s[0].time
}

/// The specific impulse for a total impulse: the impulse divided by the
/// standard gravity 9.81, rounded down.
pub open spec fn specific_impulse_of(total_impulse: int) -> int {
    (total_impulse * 100) / 981
}

/// The impulse sum is what was gained less what was lost.
pub proof fn lemma_impulse_sum_split(s: Seq<Sample>)
    ensures
        impulse_sum(s) == impulse_gained(s) - impulse_lost(s),
    decreases s.len(),
{
    if s.len() >= 2 {
        lemma_impulse_sum_split(s.drop_last());
    }
}

/// What a series has gained and lost, each of its prefixes has not
/// exceeded.
proof fn lemma_impulse_parts_grow(s: Seq<Sample>, k: int)
    requires
        0 <= k <= s.len(),
    ensures
        impulse_gained(s.take(k)) <= impulse_gained(s),
        impulse_lost(s.take(k)) <= impulse_lost(s),
    decreases s.len() - k,
{
    if k < s.len() {
        lemma_impulse_parts_grow(s, k + 1);
        assert(s.take(k + 1).drop_last() =~= s.take(k));
    } else {
        assert(s.take(k) =~= s);
    }
}

/// A series of fewer than two samples has impulse zero, and one of two
/// samples has the impulse of its one trapezoid: half the sum of the two
/// thrusts times the time between them. Both can always be computed.
pub proof fn lemma_impulse_of_short_series(s: Seq<Sample>)
    requires
        s.len() <= 2,
    ensures
        impulse_in_range(s),
        s.len() < 2 ==> impulse_of(s) == 0,
        s.len() == 2 ==> impulse_of(s) == ((s[1].thrust + s[0].thrust) * (s[1].time - s[0].time))
            / 2_000_000,
{
    if s.len() == 2 {
        assert(impulse_sum(s.drop_last()) == 0);
        assert(impulse_gained(s.drop_last()) == 0);
        assert(impulse_lost(s.drop_last()) == 0);
        let x = s[1].thrust + s[0].thrust;
        let y = s[1].time - s[0].time;
        assert(-0x1_0000_0000_0000_0000 * 0xffff_ffff_ffff_ffff <= x * y <= 0x1_0000_0000_0000_0000
            * 0xffff_ffff_ffff_ffff) by (nonlinear_arith)
            requires
                -0x1_0000_0000_0000_0000 <= x <= 0x1_0000_0000_0000_0000,
                -0xffff_ffff_ffff_ffff <= y <= 0xffff_ffff_ffff_ffff,
        ;
    }
}

/// Where every thrust is within `f` and every time within `t` of zero, what
/// a series has gained and lost is each at most `4 * f * t` for each of its
/// samples.
proof fn lemma_impulse_parts_bounded(s: Seq<Sample>, f: nat, t: nat)
    requires
        forall|i: int|
            0 <= i < s.len() ==> -f <= (#[trigger] s[i]).thrust <= f && -t <= s[i].time <= t,
    ensures
        impulse_gained(s) <= s.len() * (4 * f * t),
        impulse_lost(s) <= s.len() * (4 * f * t),
    decreases s.len(),
{
    let most = 4 * f * t;
    if s.len() < 2 {
        assert(s.len() * most >= 0) by (nonlinear_arith)
            requires
                s.len() >= 0,
                most >= 0,
        ;
    } else {
        let init = s.drop_last();
        assert forall|i: int| 0 <= i < init.len() implies -f <= (#[trigger] init[i]).thrust <= f
            && -t <= init[i].time <= t by {
            assert(init[i] == s[i]);
        }
        lemma_impulse_parts_bounded(init, f, t);
        let last = s.len() - 1;
        let x = s[last].thrust + s[last - 1].thrust;
        let y = s[last].time - s[last - 1].time;
        assert(-most <= x * y <= most) by (nonlinear_arith)
            requires
                -2 * f <= x <= 2 * f,
                -2 * t <= y <= 2 * t,
                most == 4 * f * t,
        ;
        assert((s.len() - 1) * most + most == s.len() * most) by (nonlinear_arith);
    }
}

/// The impulse of a series can be computed where its thrusts and times
/// are of moderate size: with every thrust within `f` and every time within
/// `t` of zero, it is enough that `4 * f * t` for each sample stays below
/// 2^128. So it is for up to 2^24 samples with up to 10^15 millionths in
/// each field.
pub proof fn lemma_impulse_in_range(s: Seq<Sample>, f: nat, t: nat)
    requires
        forall|i: int|
            0 <= i < s.len() ==> -f <= (#[trigger] s[i]).thrust <= f && -t <= s[i].time <= t,
        s.len() * (4 * f * t) <= u128::MAX,
    ensures
        impulse_in_range(s),
{
    lemma_impulse_parts_bounded(s, f, t);
}

/// Along a series in which time never steps back and no thrust is
/// negative, no impulse is lost, and the total impulse is not negative.
pub proof fn lemma_forward_series_loses_nothing(s: Seq<Sample>)
    requires
        time_ordered(s),
        forall|i: int| 0 <= i < s.len() ==> (#[trigger] s[i]).thrust >= 0,
    ensures
        impulse_lost(s) == 0,
        impulse_sum(s) == impulse_gained(s),
        impulse_of(s) >= 0,
    decreases s.len(),
{
    lemma_impulse_sum_split(s);
    if s.len() >= 2 {
        let init = s.drop_last();
        assert(time_ordered(init)) by {
            assert forall|i: int, j: int| 0 <= i <= j < init.len() implies init[i].time
                <= init[j].time by {
                assert(s[i].time <= s[j].time);
            }
        }
        assert forall|i: int| 0 <= i < init.len() implies (#[trigger] init[i]).thrust >= 0 by {
            assert(init[i] == s[i]);
        }
        lemma_forward_series_loses_nothing(init);
        let last = s.len() - 1;
        let x = s[last].thrust + s[last - 1].thrust;
        let y = s[last].time - s[last - 1].time;
        assert(s[last - 1].time <= s[last].time);
        assert(x * y >= 0) by (nonlinear_arith)
            requires
                x >= 0,
                y >= 0,
        ;
    }
}

/// The peak thrust is the thrust of some sample, and no sample exceeds it.
pub proof fn lemma_peak_thrust(s: Seq<Sample>)
    requires
        s.len() > 0,
    ensures
        exists|i: int| 0 <= i < s.len() && #[trigger] s[i].thrust == peak_thrust(s),
        forall|i: int| 0 <= i < s.len() ==> #[trigger] s[i].thrust <= peak_thrust(s),
    decreases s.len(),
{
    if s.len() == 1 {
        assert(s[0].thrust == peak_thrust(s));
    } else {
        let init = s.drop_last();
        lemma_peak_thrust(init);
        let w = choose|i: int| 0 <= i < init.len() && #[trigger] init[i].thrust == peak_thrust(init);
        assert(init[w] == s[w]);
        if peak_thrust(init) >= s.last().thrust {
            assert(s[w].thrust == peak_thrust(s));
        } else {
            assert(s[s.len() - 1].thrust == peak_thrust(s));
        }
        assert forall|i: int| 0 <= i < s.len() implies #[trigger] s[i].thrust <= peak_thrust(s) by {
            if i < init.len() {
                assert(init[i] == s[i]);
            }
        }
    }
}

/// The sum of `n` thrusts lies between `n` times the least and `n` times
/// the greatest value of an `i64`.
proof fn lemma_thrust_total_bounds(s: Seq<Sample>)
    ensures
        s.len() * i64::MIN <= thrust_total(s) <= s.len() * i64::MAX,
    decreases s.len(),
{
    if s.len() > 0 {
        lemma_thrust_total_bounds(s.drop_last());
        assert((s.len() - 1) * i64::MIN + i64::MIN == s.len() * i64::MIN) by (nonlinear_arith);
        assert((s.len() - 1) * i64::MAX + i64::MAX == s.len() * i64::MAX) by (nonlinear_arith);
    }
}

/// A product in terms of the magnitudes of its factors.
proof fn lemma_product_by_magnitudes(x: int, y: int, a: int, b: int)
    requires
        a == if x < 0 { -x } else { x },
        b == if y < 0 { -y } else { y },
    ensures
        (x < 0) == (y < 0) ==> x * y == a * b,
        (x < 0) != (y < 0) ==> x * y == -(a * b),
        a * b >= 0,
        (a > 0 && b > 0) ==> a * b > 0,
        (a == 0 || b == 0) ==> a * b == 0,
{
    assert((x < 0) == (y < 0) ==> x * y == a * b) by (nonlinear_arith)
        requires
            a == if x < 0 { -x } else { x },
            b == if y < 0 { -y } else { y },
    ;
    assert((x < 0) != (y < 0) ==> x * y == -(a * b)) by (nonlinear_arith)
        requires
            a == if x < 0 { -x } else { x },
            b == if y < 0 { -y } else { y },
    ;
    assert(a * b >= 0 && ((a > 0 && b > 0) ==> a * b > 0) && ((a == 0 || b == 0) ==> a * b == 0))
        by (nonlinear_arith)
        requires
            a >= 0,
            b >= 0,
    ;
}

/// The magnitude of `x`.
fn magnitude_of(x: i128) -> (m: u128)
    requires
        x > i128::MIN,
    ensures
        m == if x < 0 { -x } else { x as int },
{
    if x < 0 {
        (-x) as u128
    } else {
        x as u128
    }
}

/// The total impulse of `samples`: the trapezoidal integral of thrust over
/// time, in millionths of a newton second, rounded down.
///
/// A series of fewer than two samples has impulse zero. Time is taken as
/// it stands: a step back in time takes impulse away. The result is `None`
/// only where the sums do not fit in 128 bits.
pub fn total_impulse(samples: &[Sample]) -> (r: Option<i128>)
    ensures
        r is Some <==> impulse_in_range(samples@),
        r matches Some(v) ==> v == impulse_of(samples@),
        samples@.len() < 2 ==> r == Some(0i128),
        samples@.len() == 2 ==> r == Some((impulse_term(samples@, 1) / 2_000_000) as i128),
{
    let n = samples.len();
    let mut gained: u128 = 0;
    let mut lost: u128 = 0;
    let mut i: usize = 1;
    proof {
        if n >= 1 {
            assert(samples@.take(1).len() < 2);
        }
    }
    while i < n
        invariant
            1 <= i,
            n == samples@.len(),
            n >= 1 ==> i <= n,
            n >= 1 ==> gained == impulse_gained(samples@.take(i as int)),
            n >= 1 ==> lost == impulse_lost(samples@.take(i as int)),
            n == 0 ==> gained == 0 && lost == 0,
            i == 1 ==> gained == 0 && lost == 0,
        decreases n - i,
    {
        let force: i128 = samples[i].thrust as i128 + samples[i - 1].thrust as i128;
        let step: i128 = samples[i].time as i128 - samples[i - 1].time as i128;
        let a: u128 = magnitude_of(force);
        let b: u128 = magnitude_of(step);
        proof {
            let s = samples@.take(i + 1);
            assert(s.drop_last() =~= samples@.take(i as int));
            assert(impulse_term(s, i as int) == force * step);
            lemma_product_by_magnitudes(force as int, step as int, a as int, b as int);
            assert(a * b <= 0x1_0000_0000_0000_0000 * 0xffff_ffff_ffff_ffff) by (nonlinear_arith)
                requires
                    a <= 0x1_0000_0000_0000_0000,
                    b <= 0xffff_ffff_ffff_ffff,
            ;
            lemma_impulse_parts_grow(samples@, i + 1);
        }
        let size: u128 = a * b;
        if (force < 0) == (step < 0) {
            match gained.checked_add(size) {
                Some(sum) => {
                    gained = sum;
                },
                None => {
                    return None;
                },
            }
        } else {
            match lost.checked_add(size) {
                Some(sum) => {
                    lost = sum;
                },
                None => {
                    return None;
                },
            }
        }
        i += 1;
    }
    proof {
        if n >= 1 {
            assert(samples@.take(n as int) =~= samples@);
        }
        lemma_impulse_sum_split(samples@);
        if n == 2 {
            assert(impulse_sum(samples@.drop_last()) == 0);
            assert(impulse_sum(samples@) == impulse_term(samples@, 1));
        }
    }
    if gained >= lost {
        Some(((gained - lost) / 2_000_000) as i128)
    } else {
        let debt: u128 = lost - gained;
        let q: u128 = debt / 2_000_000;
        let r: u128 = debt % 2_000_000;
        if r == 0 {
            proof {
                lemma_fundamental_div_mod_converse(-(debt as int), 2_000_000, -(q as int), 0);
            }
            Some(-(q as i128))
        } else {
            proof {
                lemma_fundamental_div_mod_converse(
                    -(debt as int),
                    2_000_000,
                    -(q as int) - 1,
                    2_000_000 - r as int,
                );
            }
            Some(-(q as i128) - 1)
        }
    }
}

/// The greatest thrust among `samples`; `None` for an empty series.
pub fn max_thrust(samples: &[Sample]) -> (r: Option<i64>)
    ensures
        r is None <==> samples@.len() == 0,
        r matches Some(m) ==> {
            &&& m == peak_thrust(samples@)
            &&& exists|i: int| 0 <= i < samples@.len() && #[trigger] samples@[i].thrust == m
            &&& forall|i: int| 0 <= i < samples@.len() ==> #[trigger] samples@[i].thrust <= m
        },
{
    if samples.len() == 0 {
        return None;
    }
    let mut peak: i64 = samples[0].thrust;
    let mut i: usize = 1;
    proof {
        assert(samples@.take(1).len() == 1);
    }
    while i < samples.len()
        invariant
            1 <= i <= samples.len(),
            peak == peak_thrust(samples@.take(i as int)),
        decreases samples.len() - i,
    {
        proof {
            assert(samples@.take(i + 1).drop_last() =~= samples@.take(i as int));
        }
        if samples[i].thrust > peak {
            peak = samples[i].thrust;
        }
        i += 1;
    }
    proof {
        assert(samples@.take(samples.len() as int) =~= samples@);
        lemma_peak_thrust(samples@);
    }
    Some(peak)
}

/// The arithmetic mean of the thrusts of `samples`, rounded down; `None`
/// for an empty series.
pub fn avg_thrust(samples: &[Sample]) -> (r: Option<i64>)
    ensures
        r is None <==> samples@.len() == 0,
        r matches Some(a) ==> a == mean_thrust(samples@),
{
    let n = samples.len();
    if n == 0 {
        return None;
    }
    let mut total: i128 = 0;
    let mut i: usize = 0;
    proof {
        assert(samples@.take(0) =~= Seq::<Sample>::empty());
    }
    while i < n
        invariant
            i <= n,
            n == samples.len(),
            total == thrust_total(samples@.take(i as int)),
        decreases n - i,
    {
        proof {
            assert(samples@.take(i + 1).drop_last() =~= samples@.take(i as int));
            lemma_thrust_total_bounds(samples@.take(i as int));
            assert(i * i64::MIN >= 0xffff_ffff_ffff_ffff * i64::MIN) by (nonlinear_arith)
                requires
                    0 <= i <= 0xffff_ffff_ffff_ffff,
            ;
            assert(i * i64::MAX <= 0xffff_ffff_ffff_ffff * i64::MAX) by (nonlinear_arith)
                requires
                    0 <= i <= 0xffff_ffff_ffff_ffff,
            ;
        }
        total = total + samples[i].thrust as i128;
        i += 1;
    }
    proof {
        assert(samples@.take(n as int) =~= samples@);
        lemma_thrust_total_bounds(samples@);
        let t = thrust_total(samples@);
        let len = n as int;
        assert(i64::MIN <= t / len <= i64::MAX) by (nonlinear_arith)
            requires
                len > 0,
                len * i64::MIN <= t <= len * i64::MAX,
        ;
    }
    match total.checked_div_euclid(n as i128) {
        Some(mean) => Some(mean as i64),
        None => None,
    }
}

/// The time from the first of `samples` to the last, in microseconds;
/// `None` for an empty series.
pub fn duration(samples: &[Sample]) -> (r: Option<i128>)
    ensures
        r is None <==> samples@.len() == 0,
        r matches Some(d) ==> d == span(samples@),
{
    let n = samples.len();
    if n == 0 {
        return None;
    }
    Some(samples[n - 1].time as i128 - samples[0].time as i128)
}

/// The specific impulse, in millionths of a second, for a total impulse in
/// millionths of a newton second: the impulse divided by 9.81, rounded
/// down.
pub fn specific_impulse(total_impulse: i128) -> (r: i128)
    ensures
        r == specific_impulse_of(total_impulse as int),
{
    let q: i128 = match total_impulse.checked_div_euclid(981) {
        Some(q) => q,
        None => 0,
    };
    let rest: i128 = match total_impulse.checked_rem_euclid(981) {
        Some(rest) => rest,
        None => 0,
    };
    proof {
        let t = total_impulse as int;
        assert(q == t / 981 && rest == t % 981);
        let tail = (rest * 100) / 981;
        let low = (rest * 100) % 981;
        assert(t * 100 == (100 * q + tail) * 981 + low);
        lemma_fundamental_div_mod_converse(t * 100, 981, 100 * q + tail, low);
    }
    100 * q + (rest * 100) / 981
}

/// The figures that describe a series as a whole. All are millionths of
/// their unit.
#[derive(Clone, Copy, Debug, PartialEq, Eq, Structural)]
pub struct DerivedMetrics {
    /// Total impulse, in millionths of a newton second; `None` where it
    /// does not fit in 128 bits.
    pub total_impulse: Option<i128>,
    /// The greatest thrust.
    pub max_thrust: i64,
    /// The mean thrust, rounded down.
    pub avg_thrust: i64,
    /// The time from the first sample to the last, in microseconds.
    pub duration: i128,
}

/// The metrics of the series `s`; of no meaning for an empty series.
pub open spec fn metrics_of(s: Seq<Sample>) -> DerivedMetrics {
    DerivedMetrics {
        total_impulse: if impulse_in_range(s) {
            Some(impulse_of(s) as i128)
        } else {
            None
        },
        max_thrust: peak_thrust(s) as i64,
        avg_thrust: mean_thrust(s) as i64,
        duration: span(s) as i128,
    }
}

impl DerivedMetrics {
    /// Computes the metrics of `samples` afresh; `None` for an empty
    /// series, of which only the impulse, zero, is defined.
    pub fn compute(samples: &[Sample]) -> (r: Option<DerivedMetrics>)
        ensures
            r == if samples@.len() == 0 {
                None
            } else {
                Some(metrics_of(samples@))
            },
    {
        let peak = max_thrust(samples);
        let mean = avg_thrust(samples);
        let time = duration(samples);
        match (peak, mean, time) {
            (Some(max_thrust), Some(avg_thrust), Some(duration)) => Some(
                DerivedMetrics {
                    total_impulse: total_impulse(samples),
                    max_thrust,
                    avg_thrust,
                    duration,
                },
            ),
            _ => None,
        }
    }
}

} // verus!
