//! Positions in a resampled stream.
//!
//! Resampling reads the source at evenly spaced positions, one per output
//! sample, `src_rate / dst_rate` apart. A position is kept as an exact
//! fraction: a count of steps of `1 / dst_rate` of a source sample. Nothing is
//! rounded, so nothing accumulates from one buffer to the next.
use vstd::prelude::*;

verus! {

/// `a / b` rounded up.
pub open spec fn ceil_div(a: int, b: int) -> int {
    (a + b - 1) / b
}

/// How many positions `phase, phase + step, phase + 2 * step, ..` lie below
/// `end`.
pub open spec fn positions_below(phase: int, step: int, end: int) -> int {
    if end <= phase {
        0
    } else {
        ceil_div(end - phase, step)
    }
}

/// `n` is the number of positions below `end` if the `n`-th still lies at or
/// beyond `end` and the one before it does not.
pub proof fn lemma_positions_below(phase: int, step: int, end: int, n: int)
    requires
        step > 0,
        n >= 0,
        end <= phase + n * step,
        n > 0 ==> phase + (n - 1) * step < end,
    ensures
        positions_below(phase, step, end) == n,
{
    if n == 0 {
    } else {
        let gap = end - phase;
        assert((n - 1) * step == n * step - step) by (nonlinear_arith);
        assert(n * step <= gap + step - 1 < (n + 1) * step) by (nonlinear_arith)
            requires
                n * step - step < gap <= n * step,
        ;
        assert((gap + step - 1) / step == n) by (nonlinear_arith)
            requires
                step > 0,
                n * step <= gap + step - 1 < (n + 1) * step,
        ;
        assert(end > phase) by (nonlinear_arith)
            requires
                phase + (n - 1) * step < end,
                n >= 1,
                step > 0,
        ;
    }
}

/// The bounds that [`positions_below`] stands for: the last counted position
/// lies below `end`, the next one does not.
pub proof fn lemma_positions_bounds(phase: int, step: int, end: int)
    requires
        step > 0,
    ensures
        positions_below(phase, step, end) >= 0,
        end <= phase + positions_below(phase, step, end) * step,
        positions_below(phase, step, end) > 0 ==> phase + (positions_below(phase, step, end) - 1)
            * step < end,
{
    if end > phase {
        let gap = end - phase;
        let n = (gap + step - 1) / step;
        vstd::arithmetic::div_mod::lemma_fundamental_div_mod(gap + step - 1, step);
        assert(n * step <= gap + step - 1 < n * step + step) by (nonlinear_arith)
            requires
                gap + step - 1 == step * n + (gap + step - 1) % step,
                0 <= (gap + step - 1) % step < step,
        ;
        assert((n - 1) * step == n * step - step) by (nonlinear_arith);
        assert(n >= 0) by (nonlinear_arith)
            requires
                gap + step - 1 < n * step + step,
                gap > 0,
                step > 0,
        ;
    }
}

/// A position below `n` whole source samples falls into one of them.
pub proof fn lemma_position_index(pos: int, rate: int, n: int)
    requires
        rate > 0,
        0 <= pos < n * rate,
    ensures
        0 <= pos / rate < n,
        0 <= pos % rate < rate,
{
    vstd::arithmetic::div_mod::lemma_fundamental_div_mod(pos, rate);
    assert(pos / rate < n) by (nonlinear_arith)
        requires
            pos == rate * (pos / rate) + pos % rate,
            0 <= pos % rate,
            pos < n * rate,
            rate > 0,
    ;
    assert(pos / rate >= 0) by (nonlinear_arith)
        requires
            pos == rate * (pos / rate) + pos % rate,
            pos % rate < rate,
            pos >= 0,
            rate > 0,
    ;
}

/// Moving a position by whole samples moves its sample and keeps its fraction.
pub proof fn lemma_whole_samples(pos: int, rate: int, n: int)
    requires
        rate > 0,
    ensures
        (pos + n * rate) / rate == pos / rate + n,
        (pos + n * rate) % rate == pos % rate,
{
    vstd::arithmetic::div_mod::lemma_fundamental_div_mod(pos, rate);
    assert(pos + n * rate == (pos / rate + n) * rate + pos % rate) by (nonlinear_arith)
        requires
            pos == rate * (pos / rate) + pos % rate,
    ;
    vstd::arithmetic::div_mod::lemma_fundamental_div_mod_converse(pos + n * rate, rate, pos / rate + n, pos % rate);
}

/// Cutting at `cut` and counting on from there counts every position once.
pub proof fn lemma_positions_split(phase: int, step: int, cut: int, end: int)
    requires
        step > 0,
        cut <= end,
    ensures
        positions_below(phase, step, end) == positions_below(phase, step, cut) + positions_below(
            phase + positions_below(phase, step, cut) * step - cut,
            step,
            end - cut,
        ),
{
    let p = positions_below(phase, step, cut);
    let rest = phase + p * step - cut;
    let q = positions_below(rest, step, end - cut);
    lemma_positions_bounds(phase, step, cut);
    lemma_positions_bounds(rest, step, end - cut);
    assert((p + q) * step == p * step + q * step) by (nonlinear_arith);
    assert((p + q - 1) * step == p * step + (q - 1) * step) by (nonlinear_arith);
    assert(q == 0 ==> (p + q - 1) * step == (p - 1) * step);
    lemma_positions_below(phase, step, end, p + q);
}

/// What the numbers add up to.
pub open spec fn total(sizes: Seq<nat>) -> int
    decreases sizes.len(),
{
    if sizes.len() == 0 {
        0
    } else {
        sizes[0] + total(sizes.drop_first())
    }
}

/// How many samples come out of a run of buffers of the given sizes, when each
/// buffer starts at the position the one before it ended at.
pub open spec fn produced(phase: int, src_rate: int, dst_rate: int, sizes: Seq<nat>) -> int
    decreases sizes.len(),
{
    if sizes.len() == 0 {
        0
    } else {
        let end = sizes[0] * dst_rate;
        let n = positions_below(phase, src_rate, end);
        n + produced(phase + n * src_rate - end, src_rate, dst_rate, sizes.drop_first())
    }
}

/// The number of samples is that of the uncut stream, however it is cut.
pub proof fn lemma_produced(phase: int, src_rate: int, dst_rate: int, sizes: Seq<nat>)
    requires
        src_rate > 0,
        dst_rate > 0,
        0 <= phase,
    ensures
        total(sizes) >= 0,
        produced(phase, src_rate, dst_rate, sizes) == positions_below(
            phase,
            src_rate,
            total(sizes) * dst_rate,
        ),
    decreases sizes.len(),
{
    if sizes.len() > 0 {
        let end = sizes[0] * dst_rate;
        let n = positions_below(phase, src_rate, end);
        let rest = total(sizes.drop_first());
        lemma_positions_bounds(phase, src_rate, end);
        lemma_produced(phase + n * src_rate - end, src_rate, dst_rate, sizes.drop_first());
        assert((sizes[0] + rest) * dst_rate == end + rest * dst_rate) by (nonlinear_arith)
            requires
                end == sizes[0] * dst_rate,
        ;
        assert(0 <= rest * dst_rate) by (nonlinear_arith)
            requires
                rest >= 0,
                dst_rate > 0,
        ;
        lemma_positions_split(phase, src_rate, end, total(sizes) * dst_rate);
    }
}

/// How much a sample counts towards an output that is `distance` away from it,
/// in steps of `1 / rate` of a sample: all of it on the spot, and evenly less
/// until a whole sample away.
pub open spec fn tent(distance: int, rate: int) -> int {
    if -rate < distance <= 0 {
        rate + distance
    } else if 0 < distance < rate {
        rate - distance
    } else {
        0
    }
}

/// What the samples `xs` count towards the output at `pos`, where sample `j`
/// stands at `(j + 1) * rate`.
pub open spec fn counted(xs: Seq<int>, pos: int, rate: int) -> int
    decreases xs.len(),
{
    if xs.len() == 0 {
        0
    } else {
        counted(xs.drop_last(), pos, rate) + xs.last() * tent(pos - xs.len() * rate, rate)
    }
}

/// The exact value of a signal between its samples, `rate` times over: every
/// sample counts by how near it is. The samples stand a whole sample apart,
/// `last` at 0 and the ones after it from `rate` on.
pub open spec fn between_samples(last: int, xs: Seq<int>, pos: int, rate: int) -> int {
    last * tent(pos, rate) + counted(xs, pos, rate)
}

/// Samples that are a whole sample away or more count nothing.
proof fn lemma_far_samples_do_not_count(xs: Seq<int>, pos: int, rate: int)
    requires
        rate > 0,
        pos >= (xs.len() + 1) * rate,
    ensures
        counted(xs, pos, rate) == 0,
    decreases xs.len(),
{
    if xs.len() > 0 {
        let n = xs.len() as int;
        assert((n + 1) * rate == n * rate + rate) by (nonlinear_arith);
        lemma_far_samples_do_not_count(xs.drop_last(), pos, rate);
        assert(xs.last() * 0 == 0);
    }
}

/// Only the sample before a position and the one it falls into count.
pub proof fn lemma_two_samples_count(last: int, xs: Seq<int>, pos: int, rate: int)
    requires
        rate > 0,
        0 <= pos < xs.len() * rate,
    ensures
        0 <= pos / rate < xs.len(),
        between_samples(last, xs, pos, rate) == (if pos / rate == 0 {
            last
        } else {
            xs[pos / rate - 1]
        }) * (rate - pos % rate) + xs[pos / rate] * (pos % rate),
    decreases xs.len(),
{
    lemma_position_index(pos, rate, xs.len() as int);
    vstd::arithmetic::div_mod::lemma_fundamental_div_mod(pos, rate);
    let idx = pos / rate;
    let num = pos % rate;
    let n = xs.len() as int;
    let init = xs.drop_last();
    assert(pos == idx * rate + num) by (nonlinear_arith)
        requires
            pos == rate * idx + num,
    ;
    if idx < n - 1 {
        assert(pos < (n - 1) * rate) by (nonlinear_arith)
            requires
                pos == idx * rate + num,
                idx + 1 <= n - 1,
                num < rate,
                rate > 0,
        ;
        lemma_two_samples_count(last, init, pos, rate);
        assert(pos - n * rate <= -rate) by (nonlinear_arith)
            requires
                pos < (n - 1) * rate,
        ;
        let t = tent(pos - xs.len() * rate, rate);
        assert(t == 0);
        assert(xs.last() * t == 0) by (nonlinear_arith)
            requires
                t == 0,
        ;
        assert(init[idx] == xs[idx]);
    } else {
        assert(pos - n * rate == num - rate) by (nonlinear_arith)
            requires
                pos == idx * rate + num,
                idx == n - 1,
        ;
        assert(tent(pos - xs.len() * rate, rate) == num);
        if idx == 0 {
            assert(init.len() == 0);
            assert(0 * rate == 0);
            assert(pos == num);
            assert(tent(pos, rate) == rate - num);
            assert(counted(init, pos, rate) == 0);
        } else {
            let rest = init.drop_last();
            assert(init.len() == idx);
            assert(pos - idx * rate == num);
            assert(tent(num, rate) == rate - num);
            assert(rest.len() + 1 == idx);
            assert(pos >= (rest.len() + 1) * rate);
            lemma_far_samples_do_not_count(rest, pos, rate);
            assert(pos >= rate) by (nonlinear_arith)
                requires
                    pos >= idx * rate,
                    idx >= 1,
                    rate > 0,
            ;
            let t = tent(pos, rate);
            assert(last * t == 0) by (nonlinear_arith)
                requires
                    t == 0,
            ;
            assert(init.last() == xs[idx - 1]);
            assert(tent(pos - init.len() * rate, rate) == rate - num);
            assert(counted(init, pos, rate) == xs[idx - 1] * (rate - num));
        }
    }
}

} // verus!
