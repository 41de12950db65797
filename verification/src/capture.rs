//! The capture side: what a device hands over, turned into whole frames of
//! mono 48 kHz audio.
use vstd::prelude::*;

use crate::error::AudioError;
use crate::{Frame, FRAME_SAMPLES, SAMPLE_RATE};

verus! {

/// The samples of a run of frames, one frame after another.
pub open spec fn concat_frames<S>(frames: Seq<Frame<S>>) -> Seq<S>
    decreases frames.len(),
{
    if frames.len() == 0 {
        Seq::empty()
    } else {
        concat_frames(frames.drop_last()) + frames.last()@
    }
}

/// Taking in `samples` behind what was `held` gave `frames` and left `rest`:
/// nothing is lost, repeated or reordered.
pub open spec fn gathers<S>(
    held: Seq<S>,
    samples: Seq<S>,
    frames: Seq<Frame<S>>,
    rest: Seq<S>,
) -> bool {
    concat_frames(frames) + rest == held + samples
}

/// Copy a full frame out of a buffer that holds exactly one.
pub fn frame_of<S: Copy>(samples: &Vec<S>) -> (r: Frame<S>)
    requires
        samples@.len() == FRAME_SAMPLES,
    ensures
        r@ == samples@,
{
    let mut frame: Frame<S> = [samples[0]; FRAME_SAMPLES];
    for i in 0..FRAME_SAMPLES
        invariant
            samples@.len() == FRAME_SAMPLES,
            forall|j: int| 0 <= j < i ==> frame@[j] == samples@[j],
    {
        frame[i] = samples[i];
    }
    assert(frame@ =~= samples@);
    frame
}

/// Collects a stream of arbitrary-length pieces into 480-sample frames. Holds
/// at most one partial frame from one call to the next.
pub struct FrameAccumulator<S> {
    buf: Vec<S>,
}

impl<S> View for FrameAccumulator<S> {
    type V = Seq<S>;

    /// The samples held back for the next frame.
    closed spec fn view(&self) -> Seq<S> {
        self.buf@
    }
}

impl<S: Copy> FrameAccumulator<S> {
    /// What is held back is always less than a frame.
    pub open spec fn wf(&self) -> bool {
        self@.len() < FRAME_SAMPLES
    }

    /// An accumulator that holds nothing.
    pub fn new() -> (r: Self)
        ensures
            r.wf(),
            r@ == Seq::<S>::empty(),
    {
        FrameAccumulator { buf: Vec::with_capacity(2 * FRAME_SAMPLES) }
    }

    /// Take in `samples` and return every frame that is now complete.
    ///
    /// Nothing is lost, repeated or reordered: the frames, followed by what is
    /// still held, are what was held before followed by `samples`.
    pub fn feed(&mut self, samples: &[S]) -> (frames: Vec<Frame<S>>)
        requires
            old(self).wf(),
        ensures
            final(self).wf(),
            gathers(old(self)@, samples@, frames@, final(self)@),
    {
        let mut frames: Vec<Frame<S>> = Vec::new();
        assert(samples@.take(0) =~= Seq::<S>::empty());
        for i in 0..samples.len()
            invariant
                self.wf(),
                concat_frames(frames@) + self@ == old(self)@ + samples@.take(i as int),
        {
            let ghost before = self@;
            let ghost emitted = frames@;
            self.buf.push(samples[i]);
            assert(samples@.take(i + 1) =~= samples@.take(i as int).push(samples@[i as int]));
            assert(concat_frames(frames@) + self@ =~= (concat_frames(frames@) + before).push(
                samples@[i as int],
            ));
            assert(concat_frames(frames@) + self@ =~= old(self)@ + samples@.take(i + 1));
            if self.buf.len() == FRAME_SAMPLES {
                let frame = frame_of(&self.buf);
                frames.push(frame);
                self.buf.clear();
                assert(frames@.drop_last() =~= emitted);
                assert(concat_frames(frames@) + self@ =~= old(self)@ + samples@.take(i + 1));
            }
        }
        assert(samples@.take(samples@.len() as int) =~= samples@);
        frames
    }
}

/// A run of frames holds 480 samples each.
pub proof fn lemma_concat_len<S>(frames: Seq<Frame<S>>)
    ensures
        concat_frames(frames).len() == frames.len() * FRAME_SAMPLES,
    decreases frames.len(),
{
    if frames.len() > 0 {
        lemma_concat_len(frames.drop_last());
    }
}

/// Two runs of frames, one after the other, hold their samples one after the
/// other.
proof fn lemma_concat_append<S>(a: Seq<Frame<S>>, b: Seq<Frame<S>>)
    ensures
        concat_frames(a + b) == concat_frames(a) + concat_frames(b),
    decreases b.len(),
{
    if b.len() == 0 {
        assert(a + b =~= a);
        assert(concat_frames(a) + concat_frames(b) =~= concat_frames(a));
    } else {
        assert((a + b).drop_last() =~= a + b.drop_last());
        lemma_concat_append(a, b.drop_last());
        assert(concat_frames(a + b) =~= concat_frames(a) + concat_frames(b));
    }
}

/// An accumulator was fed `chunks` one after another: `emitted[i]` are the
/// frames that feeding `chunks[i]` gave, `held[i]` what was held before it.
pub open spec fn fed<S>(
    held: Seq<Seq<S>>,
    chunks: Seq<Seq<S>>,
    emitted: Seq<Seq<Frame<S>>>,
) -> bool {
    &&& held.len() == chunks.len() + 1
    &&& emitted.len() == chunks.len()
    &&& forall|i: int| 0 <= i < held.len() ==> (#[trigger] held[i]).len() < FRAME_SAMPLES
    &&& forall|i: int|
        0 <= i < chunks.len() ==> gathers(held[i], #[trigger] chunks[i], emitted[i], held[i + 1])
}

/// Place `i` of a run of frames is place `i % 480` of frame `i / 480`.
proof fn lemma_concat_index<S>(frames: Seq<Frame<S>>, i: int)
    requires
        0 <= i < concat_frames(frames).len(),
    ensures
        0 <= i / 480 < frames.len(),
        concat_frames(frames)[i] == frames[i / 480]@[i % 480],
    decreases frames.len(),
{
    if frames.len() > 0 {
        let init = frames.drop_last();
        lemma_concat_len(init);
        lemma_concat_len(frames);
        if i < init.len() * FRAME_SAMPLES {
            lemma_concat_index(init, i);
        }
    }
}

/// The frames are the stream, cut every 480 samples: sample `i` of everything
/// that was held and fed is sample `i % 480` of frame `i / 480`, and what is
/// beyond the last whole frame is still held, in order.
pub proof fn law_the_frames_are_the_stream_cut_up<S>(
    held: Seq<Seq<S>>,
    chunks: Seq<Seq<S>>,
    emitted: Seq<Seq<Frame<S>>>,
)
    requires
        fed(held, chunks, emitted),
    ensures
        ({
            let stream = held[0] + chunks.flatten();
            let frames = emitted.flatten();
            let whole = 480 * frames.len();
            &&& stream.len() == whole + held.last().len()
            &&& held.last().len() < 480
            &&& forall|i: int| 0 <= i < whole ==> #[trigger] stream[i] == frames[i / 480]@[i % 480]
            &&& forall|i: int|
                0 <= i < held.last().len() ==> #[trigger] held.last()[i] == stream[whole + i]
        }),
{
    law_no_sample_is_lost_or_invented(held, chunks, emitted);
    let stream = held[0] + chunks.flatten();
    let frames = emitted.flatten();
    let whole = (480 * frames.len()) as int;
    lemma_concat_len(frames);
    let together = concat_frames(frames) + held.last();
    assert(together == stream);
    assert forall|i: int| 0 <= i < whole implies #[trigger] stream[i] == frames[i / 480]@[i
        % 480] by {
        lemma_concat_index(frames, i);
        assert(together[i] == concat_frames(frames)[i]);
    }
    assert forall|i: int| 0 <= i < held.last().len() implies #[trigger] held.last()[i]
        == stream[whole + i] by {
        assert(together[whole + i] == held.last()[i]);
    }
}

/// Over a run of any length no sample is lost, invented or moved: all the
/// frames that came out, followed by what is still held, are what was held at
/// the start followed by everything that was fed. So the number of frames is
/// the number of samples divided by the size of a frame.
pub proof fn law_no_sample_is_lost_or_invented<S>(
    held: Seq<Seq<S>>,
    chunks: Seq<Seq<S>>,
    emitted: Seq<Seq<Frame<S>>>,
)
    requires
        fed(held, chunks, emitted),
    ensures
        concat_frames(emitted.flatten()) + held.last() == held[0] + chunks.flatten(),
        emitted.flatten().len() == (held[0].len() + chunks.flatten().len()) / (FRAME_SAMPLES as nat),
    decreases chunks.len(),
{
    if chunks.len() == 0 {
        assert(emitted.flatten() =~= Seq::<Frame<S>>::empty());
        assert(chunks.flatten() =~= Seq::<S>::empty());
        assert(concat_frames(emitted.flatten()) + held.last() =~= held[0] + chunks.flatten());
    } else {
        let rest_held = held.drop_first();
        let rest_chunks = chunks.drop_first();
        let rest_emitted = emitted.drop_first();
        assert forall|i: int| 0 <= i < rest_chunks.len() implies concat_frames(rest_emitted[i])
            + rest_held[i + 1] == rest_held[i] + #[trigger] rest_chunks[i] && gathers(
            rest_held[i],
            rest_chunks[i],
            rest_emitted[i],
            rest_held[i + 1],
        ) by {
            assert(rest_chunks[i] == chunks[i + 1]);
        }
        law_no_sample_is_lost_or_invented(rest_held, rest_chunks, rest_emitted);
        lemma_concat_append(emitted[0], rest_emitted.flatten());
        assert(emitted.flatten() =~= emitted[0] + rest_emitted.flatten());
        assert(chunks.flatten() =~= chunks[0] + rest_chunks.flatten());
        let all = concat_frames(emitted.flatten()) + held.last();
        assert(rest_held[0] == held[1]);
        assert(rest_held.last() == held.last());
        assert(all =~= concat_frames(emitted[0]) + (concat_frames(rest_emitted.flatten())
            + held.last()));
        assert(all =~= (concat_frames(emitted[0]) + held[1]) + rest_chunks.flatten());
        assert(all =~= (held[0] + chunks[0]) + rest_chunks.flatten());
        assert(all =~= held[0] + chunks.flatten());
    }
    lemma_concat_len(emitted.flatten());
    assert(concat_frames(emitted.flatten()).len() + held.last().len() == held[0].len()
        + chunks.flatten().len()) by {
        assert((concat_frames(emitted.flatten()) + held.last()).len() == (held[0]
            + chunks.flatten()).len());
    }
}

/// `total` is what adding up `xs` one after another, starting from `zero`,
/// gives.
pub open spec fn sums_to<S, A: Fn(S, S) -> S>(plus: A, zero: S, xs: Seq<S>, total: S) -> bool {
    exists|acc: Seq<S>| #[trigger]
        acc.len() == xs.len() + 1 && acc[0] == zero && acc[xs.len() as int] == total && forall|i: int|
            0 <= i < xs.len() ==> call_ensures(plus, (#[trigger] acc[i], xs[i]), acc[i + 1])
}

/// `mono` is the mix-down of `frames` interleaved frames: the samples
/// themselves for one channel, else per frame the channels added up and
/// divided by their number.
pub open spec fn mixes_down<S, A: Fn(S, S) -> S, D: Fn(S, usize) -> S>(
    interleaved: Seq<S>,
    channels: usize,
    frames: int,
    plus: A,
    divide: D,
    zero: S,
    mono: Seq<S>,
) -> bool {
    &&& mono.len() == frames
    &&& channels == 1 ==> mono == interleaved.take(frames)
    &&& channels != 1 ==> forall|f: int|
        0 <= f < frames ==> mixed_frame(
            interleaved.subrange(f * channels, f * channels + channels),
            channels,
            plus,
            divide,
            zero,
            #[trigger] mono[f],
        )
}

/// `mixed` is the channels of one frame added up and divided by their number.
pub open spec fn mixed_frame<S, A: Fn(S, S) -> S, D: Fn(S, usize) -> S>(
    frame: Seq<S>,
    channels: usize,
    plus: A,
    divide: D,
    zero: S,
    mixed: S,
) -> bool {
    exists|total: S| #[trigger]
        sums_to(plus, zero, frame, total) && call_ensures(divide, (total, channels), mixed)
}

/// Add up `count` samples, one after another, starting at `base`.
pub fn add_up<S: Copy, A: Fn(S, S) -> S>(
    xs: &[S],
    base: usize,
    count: usize,
    plus: &A,
    zero: S,
) -> (total: S)
    requires
        base + count <= xs@.len(),
        forall|a: S, b: S| call_requires(*plus, (a, b)),
    ensures
        sums_to(*plus, zero, xs@.subrange(base as int, base + count), total),
{
    let length: usize = xs.len();
    let mut acc: S = zero;
    let ghost mut trace: Seq<S> = seq![zero];
    let ghost part = xs@.subrange(base as int, base + count);
    for c in 0..count
        invariant
            length == xs@.len(),
            base + count <= length,
            part == xs@.subrange(base as int, base + count),
            forall|a: S, b: S| call_requires(*plus, (a, b)),
            trace.len() == c + 1,
            trace[0] == zero,
            trace[c as int] == acc,
            forall|i: int|
                0 <= i < c ==> call_ensures(*plus, (#[trigger] trace[i], part[i]), trace[i + 1]),
    {
        let next = plus(acc, xs[base + c]);
        proof {
            let grown = trace.push(next);
            assert forall|i: int| 0 <= i < c + 1 implies call_ensures(
                *plus,
                (#[trigger] grown[i], part[i]),
                grown[i + 1],
            ) by {
                if i < c {
                    assert(trace[i] == grown[i]);
                }
            }
            trace = grown;
        }
        acc = next;
    }
    assert(sums_to(*plus, zero, part, acc));
    acc
}

/// Add up one frame's channels, starting at `base`, and divide by their number.
fn mix_frame<S: Copy, A: Fn(S, S) -> S, D: Fn(S, usize) -> S>(
    interleaved: &[S],
    base: usize,
    channels: usize,
    plus: &A,
    divide: &D,
    zero: S,
) -> (mixed: S)
    requires
        base + channels <= interleaved@.len(),
        forall|a: S, b: S| call_requires(*plus, (a, b)),
        forall|a: S, n: usize| call_requires(*divide, (a, n)),
    ensures
        mixed_frame(
            interleaved@.subrange(base as int, base + channels),
            channels,
            *plus,
            *divide,
            zero,
            mixed,
        ),
{
    let total = add_up(interleaved, base, channels, plus, zero);
    divide(total, channels)
}

/// Read `mono` at every position from `phase` on that lies in it. Returns the
/// interpolated samples and the next position, counted from the end of `mono`.
fn read_positions<S: Copy, L: Fn(S, S, u32, u32) -> S>(
    mono: &Vec<S>,
    src_rate: u32,
    dst_rate: u32,
    phase: u64,
    last: S,
    lerp: &L,
) -> (r: (Vec<S>, u64))
    requires
        src_rate > 0,
        dst_rate > 0,
        src_rate != dst_rate,
        phase < src_rate,
        forall|a: S, b: S, n: u32, d: u32| n < d ==> call_requires(*lerp, (a, b, n, d)),
    ensures
        resamples(mono@, src_rate, dst_rate, phase as int, last, *lerp, r.0@),
        r.1 < src_rate,
        r.1 == phase + r.0@.len() * src_rate - mono@.len() * dst_rate,
{
    let mut out: Vec<S> = Vec::new();
    let n: usize = mono.len();
    assert(n * dst_rate <= 0xffff_ffff_ffff_ffff * 0xffff_ffff) by (nonlinear_arith)
        requires
            0 <= n <= 0xffff_ffff_ffff_ffff,
            0 <= dst_rate <= 0xffff_ffff,
    ;
    let end: u128 = n as u128 * dst_rate as u128;
    let mut pos: u128 = phase as u128;
    while pos < end
        invariant
            src_rate > 0,
            dst_rate > 0,
            phase < src_rate,
            n == mono@.len(),
            end == n * dst_rate,
            end <= 0xffff_ffff_ffff_ffff * 0xffff_ffff,
            pos == phase + out@.len() * src_rate,
            pos < end + src_rate,
            out@.len() > 0 ==> phase + (out@.len() - 1) * src_rate < end,
            forall|a: S, b: S, n: u32, d: u32| n < d ==> call_requires(*lerp, (a, b, n, d)),
            forall|k: int|
                0 <= k < out@.len() ==> interpolates(
                    mono@,
                    dst_rate,
                    phase + k * src_rate,
                    last,
                    *lerp,
                    #[trigger] out@[k],
                ),
        decreases end + src_rate - pos,
    {
        proof {
            crate::resample::lemma_position_index(pos as int, dst_rate as int, n as int);
        }
        let idx: usize = (pos / dst_rate as u128) as usize;
        let num: u32 = (pos % dst_rate as u128) as u32;
        let a: S = if idx == 0 {
            last
        } else {
            mono[idx - 1]
        };
        let value = lerp(a, mono[idx], num, dst_rate);
        let ghost done = out@;
        out.push(value);
        assert forall|k: int| 0 <= k < out@.len() implies interpolates(
            mono@,
            dst_rate,
            phase + k * src_rate,
            last,
            *lerp,
            #[trigger] out@[k],
        ) by {
            if k < done.len() {
                assert(out@[k] == done[k]);
            }
        }
        assert((done.len() + 1) * src_rate == done.len() * src_rate + src_rate) by (
        nonlinear_arith);
        pos = pos + src_rate as u128;
    }
    proof {
        assert(0 <= n * dst_rate);
        crate::resample::lemma_positions_below(phase as int, src_rate as int, end as int, out@.len() as int);
    }
    let next: u64 = (pos - end) as u64;
    (out, next)
}

/// Cheap inline mix-down and linear resampler, good enough for voice.
///
/// It carries the last source sample and the read position from one buffer to
/// the next, so a stream cut into buffers comes out as if it had been whole.
pub struct InlineConverter<S> {
    src_rate: u32,
    src_channels: usize,
    dst_rate: u32,
    zero: S,
    last_sample: S,
    phase: u64,
}

/// `out` is `mono` read on from `phase`: at the same rate the samples
/// themselves, else each output is the interpolation between the two source
/// samples around its position.
pub open spec fn resamples<S, L: Fn(S, S, u32, u32) -> S>(
    mono: Seq<S>,
    src_rate: u32,
    dst_rate: u32,
    phase: int,
    last: S,
    lerp: L,
    out: Seq<S>,
) -> bool {
    if src_rate == dst_rate {
        out == mono
    } else {
        &&& out.len() == crate::resample::positions_below(phase, src_rate as int, mono.len() * dst_rate)
        &&& forall|k: int|
            0 <= k < out.len() ==> interpolates(
                mono,
                dst_rate,
                phase + k * src_rate,
                last,
                lerp,
                #[trigger] out[k],
            )
    }
}

/// `value` is the interpolation at position `pos`, counted in steps of
/// `1 / rate` of a sample, between the sample before it and the sample it
/// falls into. The sample before the first is `last`.
pub open spec fn interpolates<S, L: Fn(S, S, u32, u32) -> S>(
    mono: Seq<S>,
    rate: u32,
    pos: int,
    last: S,
    lerp: L,
    value: S,
) -> bool {
    let idx = pos / (rate as int);
    let before = if idx == 0 {
        last
    } else {
        mono[idx - 1]
    };
    call_ensures(lerp, (before, mono[idx], (pos % (rate as int)) as u32, rate), value)
}

/// A stream cut into two buffers comes out as if it had been whole: what the
/// second buffer gives, read on from where the first one ended, follows what
/// the first one gave, sample for sample.
pub proof fn law_resampling_is_seamless<S, L: Fn(S, S, u32, u32) -> S>(
    first: Seq<S>,
    second: Seq<S>,
    src_rate: u32,
    dst_rate: u32,
    phase: int,
    last: S,
    lerp: L,
    out1: Seq<S>,
    out2: Seq<S>,
)
    requires
        src_rate > 0,
        dst_rate > 0,
        phase >= 0,
        resamples(first, src_rate, dst_rate, phase, last, lerp, out1),
        resamples(
            second,
            src_rate,
            dst_rate,
            phase + out1.len() * src_rate - first.len() * dst_rate,
            if first.len() == 0 {
                last
            } else {
                first.last()
            },
            lerp,
            out2,
        ),
    ensures
        resamples(first + second, src_rate, dst_rate, phase, last, lerp, out1 + out2),
{
    if src_rate != dst_rate {
        let whole = first + second;
        let out = out1 + out2;
        let cut = first.len() * dst_rate;
        let rest = phase + out1.len() * src_rate - cut;
        let mid = if first.len() == 0 {
            last
        } else {
            first.last()
        };
        assert(whole.len() * dst_rate == cut + second.len() * dst_rate) by (nonlinear_arith)
            requires
                whole.len() == first.len() + second.len(),
                cut == first.len() * dst_rate,
        ;
        assert(0 <= second.len() * dst_rate) by (nonlinear_arith);
        crate::resample::lemma_positions_bounds(phase, src_rate as int, cut);
        crate::resample::lemma_positions_bounds(rest, src_rate as int, second.len() * dst_rate);
        crate::resample::lemma_positions_split(phase, src_rate as int, cut, whole.len() * dst_rate);
        assert forall|k: int| 0 <= k < out.len() implies interpolates(
            whole,
            dst_rate,
            phase + k * src_rate,
            last,
            lerp,
            #[trigger] out[k],
        ) by {
            if k < out1.len() {
                assert(out[k] == out1[k]);
                assert(phase + k * src_rate <= phase + (out1.len() - 1) * src_rate) by (
                nonlinear_arith)
                    requires
                        k <= out1.len() - 1,
                ;
                assert(0 <= k * src_rate) by (nonlinear_arith)
                    requires
                        k >= 0,
                ;
                crate::resample::lemma_position_index(phase + k * src_rate, dst_rate as int, first.len() as int);
            } else {
                let j = k - out1.len();
                assert(out[k] == out2[j]);
                let pos = rest + j * src_rate;
                assert(j * src_rate == k * src_rate - out1.len() * src_rate) by (nonlinear_arith)
                    requires
                        j == k - out1.len(),
                ;
                assert(j * src_rate <= (out2.len() - 1) * src_rate) by (nonlinear_arith)
                    requires
                        j <= out2.len() - 1,
                ;
                assert(0 <= j * src_rate) by (nonlinear_arith)
                    requires
                        j >= 0,
                ;
                crate::resample::lemma_position_index(pos, dst_rate as int, second.len() as int);
                crate::resample::lemma_whole_samples(pos, dst_rate as int, first.len() as int);
                assert(interpolates(second, dst_rate, pos, mid, lerp, out2[j]));
                let idx = pos / (dst_rate as int);
                assert(whole[first.len() + idx] == second[idx]);
                if idx > 0 {
                    assert(whole[first.len() + idx - 1] == second[idx - 1]);
                } else if first.len() > 0 {
                    assert(whole[first.len() - 1] == mid);
                }
            }
        }
    }
}

impl<S: Copy> InlineConverter<S> {
    pub closed spec fn spec_src_rate(&self) -> u32 {
        self.src_rate
    }

    pub closed spec fn spec_src_channels(&self) -> usize {
        self.src_channels
    }

    pub closed spec fn spec_dst_rate(&self) -> u32 {
        self.dst_rate
    }

    /// The value of a silent sample.
    pub closed spec fn spec_zero(&self) -> S {
        self.zero
    }

    /// The last source sample of the buffer before.
    pub closed spec fn spec_last(&self) -> S {
        self.last_sample
    }

    /// Where the next output is read, in steps of `1 / dst_rate` of a source
    /// sample, from the start of the next buffer.
    pub closed spec fn spec_phase(&self) -> int {
        self.phase as int
    }

    /// Both rates are real rates, and the next output is less than one output
    /// period into the next buffer.
    pub open spec fn wf(&self) -> bool {
        &&& self.spec_src_rate() > 0
        &&& self.spec_dst_rate() > 0
        &&& 0 <= self.spec_phase() < self.spec_src_rate()
    }

    /// The parts that processing never changes.
    pub open spec fn same_setup(&self, other: &Self) -> bool {
        &&& self.spec_src_rate() == other.spec_src_rate()
        &&& self.spec_src_channels() == other.spec_src_channels()
        &&& self.spec_dst_rate() == other.spec_dst_rate()
        &&& self.spec_zero() == other.spec_zero()
    }

    /// Converting `frames` interleaved frames takes the converter from this
    /// state to `after` and gives `out`: the mix-down, read at the positions
    /// the converter stands at.
    pub open spec fn converts<A: Fn(S, S) -> S, D: Fn(S, usize) -> S, L: Fn(S, S, u32, u32) -> S>(
        &self,
        after: &Self,
        interleaved: Seq<S>,
        frames: int,
        plus: A,
        divide: D,
        lerp: L,
        out: Seq<S>,
    ) -> bool {
        &&& after.same_setup(self)
        &&& after.spec_phase() == if self.spec_src_rate() == self.spec_dst_rate() {
            self.spec_phase()
        } else {
            self.spec_phase() + out.len() * self.spec_src_rate() - frames * self.spec_dst_rate()
        }
        &&& exists|mono: Seq<S>|
            {
                &&& #[trigger] mixes_down(
                    interleaved,
                    self.spec_src_channels(),
                    frames,
                    plus,
                    divide,
                    self.spec_zero(),
                    mono,
                )
                &&& resamples(
                    mono,
                    self.spec_src_rate(),
                    self.spec_dst_rate(),
                    self.spec_phase(),
                    self.spec_last(),
                    lerp,
                    out,
                )
                &&& after.spec_last() == if frames == 0 {
                    self.spec_last()
                } else {
                    mono[frames - 1]
                }
            }
    }

    /// A converter at the start of a stream. Before the first sample there was
    /// silence, `zero`.
    pub fn new(src_rate: u32, src_channels: usize, dst_rate: u32, zero: S) -> (r: Self)
        requires
            src_rate > 0,
            dst_rate > 0,
        ensures
            r.wf(),
            r.spec_src_rate() == src_rate,
            r.spec_src_channels() == src_channels,
            r.spec_dst_rate() == dst_rate,
            r.spec_zero() == zero,
            r.spec_last() == zero,
            r.spec_phase() == 0,
    {
        InlineConverter { src_rate, src_channels, dst_rate, zero, last_sample: zero, phase: 0 }
    }

    /// Mix `frames` interleaved frames down to one channel.
    fn mix_down<A: Fn(S, S) -> S, D: Fn(S, usize) -> S>(
        &self,
        interleaved: &[S],
        frames: usize,
        plus: &A,
        divide: &D,
    ) -> (mono: Vec<S>)
        requires
            frames * self.spec_src_channels() <= interleaved@.len(),
            self.spec_src_channels() == 1 ==> frames <= interleaved@.len(),
            forall|a: S, b: S| call_requires(*plus, (a, b)),
            forall|a: S, n: usize| call_requires(*divide, (a, n)),
        ensures
            mixes_down(
                interleaved@,
                self.spec_src_channels(),
                frames as int,
                *plus,
                *divide,
                self.spec_zero(),
                mono@,
            ),
    {
        let mut mono: Vec<S> = Vec::with_capacity(frames);
        let channels: usize = self.src_channels;
        if channels == 1 {
            for f in 0..frames
                invariant
                    frames <= interleaved@.len(),
                    mono@ == interleaved@.take(f as int),
            {
                mono.push(interleaved[f]);
                assert(mono@ =~= interleaved@.take(f + 1));
            }
            return mono;
        }
        let length: usize = interleaved.len();
        for f in 0..frames
            invariant
                channels == self.spec_src_channels(),
                channels != 1,
                self.zero == self.spec_zero(),
                length == interleaved@.len(),
                frames * channels <= length,
                forall|a: S, b: S| call_requires(*plus, (a, b)),
                forall|a: S, n: usize| call_requires(*divide, (a, n)),
                mixes_down(
                    interleaved@,
                    channels,
                    f as int,
                    *plus,
                    *divide,
                    self.spec_zero(),
                    mono@,
                ),
        {
            assert(f * channels + channels <= frames * channels) by (nonlinear_arith)
                requires
                    f < frames,
            ;
            let ghost before = mono@;
            let mixed = mix_frame(interleaved, f * channels, channels, plus, divide, self.zero);
            mono.push(mixed);
            assert forall|g: int| 0 <= g < f + 1 implies mixed_frame(
                interleaved@.subrange(g * channels, g * channels + channels),
                channels,
                *plus,
                *divide,
                self.spec_zero(),
                #[trigger] mono@[g],
            ) by {
                if g < f {
                    assert(mono@[g] == before[g]);
                }
            }
        }
        mono
    }

    /// Convert one buffer of `frames` interleaved frames to mono at the
    /// destination rate.
    ///
    /// `plus` adds two samples, `divide` divides one by a channel count, and
    /// `lerp(a, b, n, d)` is the value `n / d` of the way from `a` to `b`.
    pub fn process<A: Fn(S, S) -> S, D: Fn(S, usize) -> S, L: Fn(S, S, u32, u32) -> S>(
        &mut self,
        interleaved: &[S],
        frames: usize,
        plus: &A,
        divide: &D,
        lerp: &L,
    ) -> (out: Vec<S>)
        requires
            old(self).wf(),
            frames * old(self).spec_src_channels() <= interleaved@.len(),
            forall|a: S, b: S| call_requires(*plus, (a, b)),
            forall|a: S, n: usize| call_requires(*divide, (a, n)),
            forall|a: S, b: S, n: u32, d: u32| n < d ==> call_requires(*lerp, (a, b, n, d)),
        ensures
            final(self).wf(),
            old(self).converts(
                final(self),
                interleaved@,
                frames as int,
                *plus,
                *divide,
                *lerp,
                out@,
            ),
    {
        assert(self.spec_src_channels() == 1 ==> frames <= interleaved@.len()) by {
            assert(frames * 1 == frames);
        }
        let mono = self.mix_down(interleaved, frames, plus, divide);
        let before: S = self.last_sample;
        if frames > 0 {
            self.last_sample = mono[frames - 1];
        }
        if self.src_rate == self.dst_rate {
            return mono;
        }
        let (out, phase) = read_positions(
            &mono,
            self.src_rate,
            self.dst_rate,
            self.phase,
            before,
            lerp,
        );
        self.phase = phase;
        out
    }
}

/// The mix-down of two buffers of whole frames is that of both in one.
proof fn lemma_mixes_down_append<S, A: Fn(S, S) -> S, D: Fn(S, usize) -> S>(
    first: Seq<S>,
    second: Seq<S>,
    channels: usize,
    a: int,
    b: int,
    plus: A,
    divide: D,
    zero: S,
    mono1: Seq<S>,
    mono2: Seq<S>,
)
    requires
        0 <= a,
        0 <= b,
        first.len() == a * channels,
        second.len() >= b * channels,
        mixes_down(first, channels, a, plus, divide, zero, mono1),
        mixes_down(second, channels, b, plus, divide, zero, mono2),
    ensures
        mixes_down(first + second, channels, a + b, plus, divide, zero, mono1 + mono2),
{
    let whole = first + second;
    let mono = mono1 + mono2;
    if channels == 1 {
        assert(a * 1 == a && b * 1 == b);
        assert(mono =~= whole.take(a + b));
    } else {
        assert forall|f: int| 0 <= f < a + b implies mixed_frame(
            whole.subrange(f * channels, f * channels + channels),
            channels,
            plus,
            divide,
            zero,
            #[trigger] mono[f],
        ) by {
            assert(0 <= f * channels) by (nonlinear_arith)
                requires
                    f >= 0,
            ;
            if f < a {
                assert(f * channels + channels <= a * channels) by (nonlinear_arith)
                    requires
                        f + 1 <= a,
                ;
                assert(whole.subrange(f * channels, f * channels + channels) =~= first.subrange(
                    f * channels,
                    f * channels + channels,
                ));
                assert(mono[f] == mono1[f]);
            } else {
                let g = f - a;
                assert(g * channels + channels <= b * channels) by (nonlinear_arith)
                    requires
                        g + 1 <= b,
                ;
                assert(f * channels == a * channels + g * channels) by (nonlinear_arith)
                    requires
                        f == a + g,
                ;
                assert(0 <= g * channels) by (nonlinear_arith)
                    requires
                        g >= 0,
                ;
                assert(whole.subrange(f * channels, f * channels + channels) =~= second.subrange(
                    g * channels,
                    g * channels + channels,
                ));
                assert(mono[f] == mono2[g]);
            }
        }
    }
}

/// No samples are gained or lost at the joins: two buffers of whole interleaved
/// frames, converted one after the other, take the converter to where both in
/// one buffer take it, and what they give, one after the other, is what the one
/// buffer gives.
pub proof fn law_conversion_is_seamless<
    S: Copy,
    A: Fn(S, S) -> S,
    D: Fn(S, usize) -> S,
    L: Fn(S, S, u32, u32) -> S,
>(
    before: InlineConverter<S>,
    between: InlineConverter<S>,
    after: InlineConverter<S>,
    first: Seq<S>,
    second: Seq<S>,
    a: nat,
    b: nat,
    plus: A,
    divide: D,
    lerp: L,
    out1: Seq<S>,
    out2: Seq<S>,
)
    requires
        before.wf(),
        first.len() == a * before.spec_src_channels(),
        second.len() >= b * before.spec_src_channels(),
        before.converts(&between, first, a as int, plus, divide, lerp, out1),
        between.converts(&after, second, b as int, plus, divide, lerp, out2),
    ensures
        before.converts(&after, first + second, (a + b) as int, plus, divide, lerp, out1 + out2),
{
    let src_rate = before.spec_src_rate();
    let dst_rate = before.spec_dst_rate();
    let channels = before.spec_src_channels();
    let zero = before.spec_zero();
    let mono1 = choose|mono: Seq<S>|
        {
            &&& #[trigger] mixes_down(first, channels, a as int, plus, divide, zero, mono)
            &&& resamples(
                mono,
                src_rate,
                dst_rate,
                before.spec_phase(),
                before.spec_last(),
                lerp,
                out1,
            )
            &&& between.spec_last() == if a == 0 {
                before.spec_last()
            } else {
                mono[a - 1]
            }
        };
    let mono2 = choose|mono: Seq<S>|
        {
            &&& #[trigger] mixes_down(second, channels, b as int, plus, divide, zero, mono)
            &&& resamples(
                mono,
                src_rate,
                dst_rate,
                between.spec_phase(),
                between.spec_last(),
                lerp,
                out2,
            )
            &&& after.spec_last() == if b == 0 {
                between.spec_last()
            } else {
                mono[b - 1]
            }
        };
    lemma_mixes_down_append(
        first,
        second,
        channels,
        a as int,
        b as int,
        plus,
        divide,
        zero,
        mono1,
        mono2,
    );
    law_resampling_is_seamless(
        mono1,
        mono2,
        src_rate,
        dst_rate,
        before.spec_phase(),
        before.spec_last(),
        lerp,
        out1,
        out2,
    );
    assert((out1.len() + out2.len()) * src_rate == out1.len() * src_rate + out2.len() * src_rate)
        by (nonlinear_arith);
    assert((a + b) * dst_rate == a * dst_rate + b * dst_rate) by (nonlinear_arith);
    let mono = mono1 + mono2;
    assert(mixes_down(first + second, channels, (a + b) as int, plus, divide, zero, mono));
    assert(after.spec_last() == if a + b == 0 {
        before.spec_last()
    } else {
        mono[a + b - 1]
    });
}

/// What the samples are computed with is a function of what it is given.
pub open spec fn repeatable<S, A: Fn(S, S) -> S, D: Fn(S, usize) -> S, L: Fn(S, S, u32, u32) -> S>(
    plus: A,
    divide: D,
    lerp: L,
) -> bool {
    &&& forall|x: S, y: S, u: S, v: S| #[trigger]
        call_ensures(plus, (x, y), u) && #[trigger] call_ensures(plus, (x, y), v) ==> u == v
    &&& forall|x: S, n: usize, u: S, v: S| #[trigger]
        call_ensures(divide, (x, n), u) && #[trigger] call_ensures(divide, (x, n), v) ==> u == v
    &&& forall|x: S, y: S, n: u32, d: u32, u: S, v: S| #[trigger]
        call_ensures(lerp, (x, y, n, d), u) && #[trigger] call_ensures(lerp, (x, y, n, d), v) ==> u
            == v
}

pub proof fn lemma_sums_are_one<S, A: Fn(S, S) -> S>(plus: A, zero: S, xs: Seq<S>, u: S, v: S)
    requires
        forall|x: S, y: S, u: S, v: S| #[trigger]
            call_ensures(plus, (x, y), u) && #[trigger] call_ensures(plus, (x, y), v) ==> u == v,
        sums_to(plus, zero, xs, u),
        sums_to(plus, zero, xs, v),
    ensures
        u == v,
{
    let p = choose|acc: Seq<S>| #[trigger]
        acc.len() == xs.len() + 1 && acc[0] == zero && acc[xs.len() as int] == u && forall|i: int|
            0 <= i < xs.len() ==> call_ensures(plus, (#[trigger] acc[i], xs[i]), acc[i + 1]);
    let q = choose|acc: Seq<S>| #[trigger]
        acc.len() == xs.len() + 1 && acc[0] == zero && acc[xs.len() as int] == v && forall|i: int|
            0 <= i < xs.len() ==> call_ensures(plus, (#[trigger] acc[i], xs[i]), acc[i + 1]);
    lemma_accumulators_are_one(plus, xs, p, q, xs.len() as int);
}

proof fn lemma_accumulators_are_one<S, A: Fn(S, S) -> S>(
    plus: A,
    xs: Seq<S>,
    p: Seq<S>,
    q: Seq<S>,
    n: int,
)
    requires
        forall|x: S, y: S, u: S, v: S| #[trigger]
            call_ensures(plus, (x, y), u) && #[trigger] call_ensures(plus, (x, y), v) ==> u == v,
        0 <= n <= xs.len(),
        p.len() == xs.len() + 1,
        q.len() == xs.len() + 1,
        p[0] == q[0],
        forall|i: int|
            0 <= i < xs.len() ==> call_ensures(plus, (#[trigger] p[i], xs[i]), p[i + 1]),
        forall|i: int|
            0 <= i < xs.len() ==> call_ensures(plus, (#[trigger] q[i], xs[i]), q[i + 1]),
    ensures
        p[n] == q[n],
    decreases n,
{
    if n > 0 {
        lemma_accumulators_are_one(plus, xs, p, q, n - 1);
        assert(call_ensures(plus, (p[n - 1], xs[n - 1]), p[n]));
        assert(call_ensures(plus, (q[n - 1], xs[n - 1]), q[n]));
    }
}

proof fn lemma_mix_downs_are_one<S, A: Fn(S, S) -> S, D: Fn(S, usize) -> S>(
    interleaved: Seq<S>,
    channels: usize,
    frames: int,
    plus: A,
    divide: D,
    zero: S,
    p: Seq<S>,
    q: Seq<S>,
)
    requires
        forall|x: S, y: S, u: S, v: S| #[trigger]
            call_ensures(plus, (x, y), u) && #[trigger] call_ensures(plus, (x, y), v) ==> u == v,
        forall|x: S, n: usize, u: S, v: S| #[trigger]
            call_ensures(divide, (x, n), u) && #[trigger] call_ensures(divide, (x, n), v) ==> u == v,
        mixes_down(interleaved, channels, frames, plus, divide, zero, p),
        mixes_down(interleaved, channels, frames, plus, divide, zero, q),
    ensures
        p == q,
{
    if channels != 1 {
        assert forall|f: int| 0 <= f < frames implies #[trigger] p[f] == q[f] by {
            let frame = interleaved.subrange(f * channels, f * channels + channels);
            assert(mixed_frame(frame, channels, plus, divide, zero, p[f]));
            assert(mixed_frame(frame, channels, plus, divide, zero, q[f]));
            let s = choose|total: S| #[trigger]
                sums_to(plus, zero, frame, total) && call_ensures(divide, (total, channels), p[f]);
            let t = choose|total: S| #[trigger]
                sums_to(plus, zero, frame, total) && call_ensures(divide, (total, channels), q[f]);
            lemma_sums_are_one(plus, zero, frame, s, t);
        }
        assert(p =~= q);
    }
}

/// The output does not depend on how the stream is cut into buffers: where the
/// arithmetic is a function of what it is given, `cut`, which gets two buffers
/// of whole interleaved frames, gives one after the other exactly what `whole`
/// gives of both in one, sample for sample, and they end up alike.
pub proof fn law_conversion_does_not_depend_on_the_cut<
    S: Copy,
    A: Fn(S, S) -> S,
    D: Fn(S, usize) -> S,
    L: Fn(S, S, u32, u32) -> S,
>(
    cut: InlineConverter<S>,
    cut_between: InlineConverter<S>,
    cut_after: InlineConverter<S>,
    whole: InlineConverter<S>,
    whole_after: InlineConverter<S>,
    first: Seq<S>,
    second: Seq<S>,
    a: nat,
    b: nat,
    plus: A,
    divide: D,
    lerp: L,
    out1: Seq<S>,
    out2: Seq<S>,
    out: Seq<S>,
)
    requires
        repeatable(plus, divide, lerp),
        cut.wf(),
        whole.same_setup(&cut),
        whole.spec_phase() == cut.spec_phase(),
        whole.spec_last() == cut.spec_last(),
        first.len() == a * cut.spec_src_channels(),
        second.len() >= b * cut.spec_src_channels(),
        cut.converts(&cut_between, first, a as int, plus, divide, lerp, out1),
        cut_between.converts(&cut_after, second, b as int, plus, divide, lerp, out2),
        whole.converts(&whole_after, first + second, (a + b) as int, plus, divide, lerp, out),
    ensures
        out == out1 + out2,
        whole_after.same_setup(&cut_after),
        whole_after.spec_phase() == cut_after.spec_phase(),
        whole_after.spec_last() == cut_after.spec_last(),
{
    law_conversion_is_seamless(
        cut,
        cut_between,
        cut_after,
        first,
        second,
        a,
        b,
        plus,
        divide,
        lerp,
        out1,
        out2,
    );
    let src_rate = cut.spec_src_rate();
    let dst_rate = cut.spec_dst_rate();
    let channels = cut.spec_src_channels();
    let both = out1 + out2;
    let n = (a + b) as int;
    let p = choose|mono: Seq<S>|
        {
            &&& #[trigger] mixes_down(
                first + second,
                channels,
                n,
                plus,
                divide,
                cut.spec_zero(),
                mono,
            )
            &&& resamples(
                mono,
                src_rate,
                dst_rate,
                cut.spec_phase(),
                cut.spec_last(),
                lerp,
                both,
            )
            &&& cut_after.spec_last() == if n == 0 {
                cut.spec_last()
            } else {
                mono[n - 1]
            }
        };
    let q = choose|mono: Seq<S>|
        {
            &&& #[trigger] mixes_down(
                first + second,
                channels,
                n,
                plus,
                divide,
                cut.spec_zero(),
                mono,
            )
            &&& resamples(mono, src_rate, dst_rate, cut.spec_phase(), cut.spec_last(), lerp, out)
            &&& whole_after.spec_last() == if n == 0 {
                cut.spec_last()
            } else {
                mono[n - 1]
            }
        };
    lemma_mix_downs_are_one(first + second, channels, n, plus, divide, cut.spec_zero(), p, q);
    if src_rate != dst_rate {
        assert forall|k: int| 0 <= k < out.len() implies #[trigger] out[k] == both[k] by {
            assert(interpolates(
                p,
                dst_rate,
                cut.spec_phase() + k * src_rate,
                cut.spec_last(),
                lerp,
                both[k],
            ));
        }
        assert(out =~= both);
    }
}

/// `lerp` is exact: what lies `n / rate` of the way from one sample to another
/// is worth the two by how near they are. `worth` is what a sample that goes in
/// is worth, and `fine` what one that comes out is, `rate` times over.
pub open spec fn exact_lerp<S, L: Fn(S, S, u32, u32) -> S>(
    lerp: L,
    rate: u32,
    worth: spec_fn(S) -> int,
    fine: spec_fn(S) -> int,
) -> bool {
    forall|a: S, b: S, n: u32, v: S| #[trigger]
        call_ensures(lerp, (a, b, n, rate), v) && n < rate ==> fine(v) == worth(a) * (rate - n)
            + worth(b) * n
}

/// Every output is the signal at its place: from the read position on, one
/// source period of the destination's clock apart, each is what the samples
/// around it are worth by how near they are, and no other sample counts.
pub proof fn law_every_output_is_the_signal_at_its_place<S, L: Fn(S, S, u32, u32) -> S>(
    mono: Seq<S>,
    src_rate: u32,
    dst_rate: u32,
    phase: int,
    last: S,
    lerp: L,
    out: Seq<S>,
    worth: spec_fn(S) -> int,
    fine: spec_fn(S) -> int,
)
    requires
        src_rate > 0,
        dst_rate > 0,
        src_rate != dst_rate,
        phase >= 0,
        exact_lerp(lerp, dst_rate, worth, fine),
        resamples(mono, src_rate, dst_rate, phase, last, lerp, out),
    ensures
        forall|k: int|
            0 <= k < out.len() ==> fine(#[trigger] out[k]) == crate::resample::between_samples(
                worth(last),
                mono.map_values(worth),
                phase + k * src_rate,
                dst_rate as int,
            ),
{
    let end = mono.len() * dst_rate;
    crate::resample::lemma_positions_bounds(phase, src_rate as int, end);
    assert forall|k: int| 0 <= k < out.len() implies fine(#[trigger] out[k])
        == crate::resample::between_samples(
        worth(last),
        mono.map_values(worth),
        phase + k * src_rate,
        dst_rate as int,
    ) by {
        let n = out.len();
        let pos = phase + k * src_rate;
        assert(0 <= k * src_rate <= (n - 1) * src_rate) by (nonlinear_arith)
            requires
                0 <= k <= n - 1,
        ;
        crate::resample::lemma_two_samples_count(
            worth(last),
            mono.map_values(worth),
            pos,
            dst_rate as int,
        );
        assert(interpolates(mono, dst_rate, pos, last, lerp, out[k]));
    }
}

/// A signal that rises evenly comes out rising evenly: each output is worth
/// exactly its distance from the sample before the buffer, so every step from
/// one output to the next is the same.
pub proof fn law_a_ramp_stays_a_ramp<S, L: Fn(S, S, u32, u32) -> S>(
    mono: Seq<S>,
    src_rate: u32,
    dst_rate: u32,
    phase: int,
    last: S,
    lerp: L,
    out: Seq<S>,
    worth: spec_fn(S) -> int,
    fine: spec_fn(S) -> int,
    slope: int,
)
    requires
        src_rate > 0,
        dst_rate > 0,
        src_rate != dst_rate,
        phase >= 0,
        exact_lerp(lerp, dst_rate, worth, fine),
        resamples(mono, src_rate, dst_rate, phase, last, lerp, out),
        forall|i: int|
            0 <= i < mono.len() ==> worth(#[trigger] mono[i]) == worth(last) + slope * (i + 1),
    ensures
        forall|k: int|
            0 <= k < out.len() ==> fine(#[trigger] out[k]) == worth(last) * dst_rate + slope * (
            phase + k * src_rate),
{
    let end = mono.len() * dst_rate;
    crate::resample::lemma_positions_bounds(phase, src_rate as int, end);
    law_every_output_is_the_signal_at_its_place(
        mono,
        src_rate,
        dst_rate,
        phase,
        last,
        lerp,
        out,
        worth,
        fine,
    );
    assert forall|k: int| 0 <= k < out.len() implies fine(#[trigger] out[k]) == worth(last)
        * dst_rate + slope * (phase + k * src_rate) by {
        let n = out.len();
        let pos = phase + k * src_rate;
        let rate = dst_rate as int;
        assert(0 <= k * src_rate <= (n - 1) * src_rate) by (nonlinear_arith)
            requires
                0 <= k <= n - 1,
        ;
        let xs = mono.map_values(worth);
        crate::resample::lemma_two_samples_count(worth(last), xs, pos, rate);
        vstd::arithmetic::div_mod::lemma_fundamental_div_mod(pos, rate);
        let idx = pos / rate;
        let num = pos % rate;
        let c = worth(last);
        let a = if idx == 0 {
            c
        } else {
            xs[idx - 1]
        };
        assert(slope * 0 == 0);
        assert(a == c + slope * idx);
        assert(xs[idx] == c + slope * (idx + 1));
        assert(a * (rate - num) + xs[idx] * num == c * rate + slope * pos) by (nonlinear_arith)
            requires
                a == c + slope * idx,
                xs[idx] == c + slope * (idx + 1),
                pos == rate * idx + num,
        ;
    }
}

/// Adding up is exact where every addition is.
pub proof fn lemma_sums_to_is_the_sum<S, A: Fn(S, S) -> S>(
    plus: A,
    zero: S,
    xs: Seq<S>,
    total: S,
    worth: spec_fn(S) -> int,
)
    requires
        forall|a: S, b: S, v: S| #[trigger]
            call_ensures(plus, (a, b), v) ==> worth(v) == worth(a) + worth(b),
        worth(zero) == 0,
        sums_to(plus, zero, xs, total),
    ensures
        worth(total) == crate::dfn_frontend::sum(xs.map_values(worth)),
{
    let acc = choose|acc: Seq<S>| #[trigger]
        acc.len() == xs.len() + 1 && acc[0] == zero && acc[xs.len() as int] == total && forall|
            i: int,
        |
            0 <= i < xs.len() ==> call_ensures(plus, (#[trigger] acc[i], xs[i]), acc[i + 1]);
    lemma_accumulates(plus, xs, acc, xs.len() as int, worth);
    assert(xs.map_values(worth).take(xs.len() as int) =~= xs.map_values(worth));
}

proof fn lemma_accumulates<S, A: Fn(S, S) -> S>(
    plus: A,
    xs: Seq<S>,
    acc: Seq<S>,
    n: int,
    worth: spec_fn(S) -> int,
)
    requires
        forall|a: S, b: S, v: S| #[trigger]
            call_ensures(plus, (a, b), v) ==> worth(v) == worth(a) + worth(b),
        0 <= n <= xs.len(),
        acc.len() == xs.len() + 1,
        worth(acc[0]) == 0,
        forall|i: int|
            0 <= i < xs.len() ==> call_ensures(plus, (#[trigger] acc[i], xs[i]), acc[i + 1]),
    ensures
        worth(acc[n]) == crate::dfn_frontend::sum(xs.map_values(worth).take(n)),
    decreases n,
{
    let all = xs.map_values(worth);
    if n > 0 {
        lemma_accumulates(plus, xs, acc, n - 1, worth);
        assert(call_ensures(plus, (acc[n - 1], xs[n - 1]), acc[n]));
        assert(all.take(n).drop_last() =~= all.take(n - 1));
        assert(all.take(n).last() == worth(xs[n - 1]));
    } else {
        assert(all.take(0) =~= Seq::<int>::empty());
    }
}

/// The arithmetic of mixing down is exact.
pub open spec fn exact_mix<S, A: Fn(S, S) -> S, D: Fn(S, usize) -> S>(
    plus: A,
    divide: D,
    zero: S,
    worth: spec_fn(S) -> int,
) -> bool {
    &&& worth(zero) == 0
    &&& forall|a: S, b: S, v: S| #[trigger]
        call_ensures(plus, (a, b), v) ==> worth(v) == worth(a) + worth(b)
    &&& forall|a: S, n: usize, v: S| #[trigger]
        call_ensures(divide, (a, n), v) && n > 0 ==> worth(v) * n == worth(a)
}

/// Every channel counts alike: what a frame is mixed down to, times the number
/// of channels, is all of its channels added up.
pub proof fn law_mixing_down_averages_the_channels<S, A: Fn(S, S) -> S, D: Fn(S, usize) -> S>(
    interleaved: Seq<S>,
    channels: usize,
    frames: int,
    plus: A,
    divide: D,
    zero: S,
    mono: Seq<S>,
    worth: spec_fn(S) -> int,
)
    requires
        channels > 0,
        frames >= 0,
        interleaved.len() >= frames * channels,
        exact_mix(plus, divide, zero, worth),
        mixes_down(interleaved, channels, frames, plus, divide, zero, mono),
    ensures
        mono.len() == frames,
        forall|f: int|
            0 <= f < frames ==> worth(#[trigger] mono[f]) * channels == crate::dfn_frontend::sum(
                Seq::new(channels as nat, |c: int| worth(interleaved[f * channels + c])),
            ),
{
    assert forall|f: int| 0 <= f < frames implies worth(#[trigger] mono[f]) * channels
        == crate::dfn_frontend::sum(
        Seq::new(channels as nat, |c: int| worth(interleaved[f * channels + c])),
    ) by {
        let parts = Seq::new(channels as nat, |c: int| worth(interleaved[f * channels + c]));
        assert(0 <= f * channels && f * channels + channels <= frames * channels)
            by (nonlinear_arith)
            requires
                0 <= f,
                f + 1 <= frames,
        ;
        if channels == 1 {
            assert(f * 1 == f && frames * 1 == frames);
            assert(mono[f] == interleaved[f]);
            assert(parts.drop_last() =~= Seq::<int>::empty());
            assert(parts.last() == worth(mono[f]));
            assert(crate::dfn_frontend::sum(parts.drop_last()) == 0);
        } else {
            let frame = interleaved.subrange(f * channels, f * channels + channels);
            assert(mixed_frame(frame, channels, plus, divide, zero, mono[f]));
            let total = choose|total: S| #[trigger]
                sums_to(plus, zero, frame, total) && call_ensures(
                    divide,
                    (total, channels),
                    mono[f],
                );
            lemma_sums_to_is_the_sum(plus, zero, frame, total, worth);
            assert(frame.map_values(worth) =~= parts);
        }
    }
}

/// What the converter is for, end to end: where the arithmetic is exact, what
/// comes out is the average of the channels, `xs`, at evenly spaced places. It
/// goes on from the sample before the buffer, and leaves the last one behind for
/// the next.
pub proof fn law_conversion_is_the_average_of_the_channels_at_even_places<
    S: Copy,
    A: Fn(S, S) -> S,
    D: Fn(S, usize) -> S,
    L: Fn(S, S, u32, u32) -> S,
>(
    before: InlineConverter<S>,
    after: InlineConverter<S>,
    interleaved: Seq<S>,
    frames: nat,
    plus: A,
    divide: D,
    lerp: L,
    out: Seq<S>,
    worth: spec_fn(S) -> int,
    fine: spec_fn(S) -> int,
    xs: Seq<int>,
)
    requires
        before.wf(),
        before.spec_src_channels() > 0,
        interleaved.len() >= frames * before.spec_src_channels(),
        exact_mix(plus, divide, before.spec_zero(), worth),
        exact_lerp(lerp, before.spec_dst_rate(), worth, fine),
        before.converts(&after, interleaved, frames as int, plus, divide, lerp, out),
        xs.len() == frames,
        forall|f: int|
            0 <= f < frames ==> crate::dfn_frontend::sum(
                Seq::new(
                    before.spec_src_channels() as nat,
                    |c: int| worth(interleaved[f * before.spec_src_channels() + c]),
                ),
            ) == #[trigger] xs[f] * before.spec_src_channels(),
    ensures
        before.spec_src_rate() == before.spec_dst_rate() ==> {
            &&& out.len() == frames
            &&& forall|k: int| 0 <= k < out.len() ==> worth(#[trigger] out[k]) == xs[k]
        },
        before.spec_src_rate() != before.spec_dst_rate() ==> forall|k: int|
            0 <= k < out.len() ==> fine(#[trigger] out[k]) == crate::resample::between_samples(
                worth(before.spec_last()),
                xs,
                before.spec_phase() + k * before.spec_src_rate(),
                before.spec_dst_rate() as int,
            ),
        worth(after.spec_last()) == (if frames == 0 {
            worth(before.spec_last())
        } else {
            xs.last()
        }),
{
    let channels = before.spec_src_channels();
    let mono = choose|mono: Seq<S>|
        {
            &&& #[trigger] mixes_down(
                interleaved,
                channels,
                frames as int,
                plus,
                divide,
                before.spec_zero(),
                mono,
            )
            &&& resamples(
                mono,
                before.spec_src_rate(),
                before.spec_dst_rate(),
                before.spec_phase(),
                before.spec_last(),
                lerp,
                out,
            )
            &&& after.spec_last() == if frames == 0 {
                before.spec_last()
            } else {
                mono[frames - 1]
            }
        };
    law_mixing_down_averages_the_channels(
        interleaved,
        channels,
        frames as int,
        plus,
        divide,
        before.spec_zero(),
        mono,
        worth,
    );
    assert forall|f: int| 0 <= f < frames implies worth(#[trigger] mono[f]) == xs[f] by {
        let w = worth(mono[f]);
        let x = xs[f];
        assert(w == x) by (nonlinear_arith)
            requires
                w * channels == x * channels,
                channels > 0,
        ;
    }
    assert(mono.map_values(worth) =~= xs);
    if before.spec_src_rate() != before.spec_dst_rate() {
        law_every_output_is_the_signal_at_its_place(
            mono,
            before.spec_src_rate(),
            before.spec_dst_rate(),
            before.spec_phase(),
            before.spec_last(),
            lerp,
            out,
            worth,
            fine,
        );
    }
}

/// A buffer of `size` frames takes a converter between different rates from
/// `before` to `after` and gives `made` samples.
pub open spec fn converts_buffer<S: Copy>(
    before: InlineConverter<S>,
    after: InlineConverter<S>,
    size: nat,
    made: nat,
) -> bool {
    &&& after.same_setup(&before)
    &&& made == crate::resample::positions_below(
        before.spec_phase(),
        before.spec_src_rate() as int,
        size * before.spec_dst_rate(),
    )
    &&& after.spec_phase() == before.spec_phase() + made * before.spec_src_rate() - size
        * before.spec_dst_rate()
}

/// A converter was given buffers of `sizes` frames one after another:
/// `states[i]` is the converter before the `i`-th, which gave `made[i]`
/// samples.
pub open spec fn converts_on<S: Copy>(
    states: Seq<InlineConverter<S>>,
    sizes: Seq<nat>,
    made: Seq<nat>,
) -> bool {
    &&& states.len() == sizes.len() + 1
    &&& made.len() == sizes.len()
    &&& states[0].wf()
    &&& forall|i: int|
        0 <= i < made.len() ==> converts_buffer(
            states[i],
            states[i + 1],
            sizes[i],
            #[trigger] made[i],
        )
}

/// The read position carries across calls: between different rates every call
/// of [`InlineConverter::process`] gives as many samples as there are positions
/// in its buffer, and the next one reads on from where it ended.
pub proof fn law_the_read_position_carries_across_calls<
    S: Copy,
    A: Fn(S, S) -> S,
    D: Fn(S, usize) -> S,
    L: Fn(S, S, u32, u32) -> S,
>(
    before: InlineConverter<S>,
    after: InlineConverter<S>,
    interleaved: Seq<S>,
    frames: nat,
    plus: A,
    divide: D,
    lerp: L,
    out: Seq<S>,
)
    requires
        before.spec_src_rate() != before.spec_dst_rate(),
        before.converts(&after, interleaved, frames as int, plus, divide, lerp, out),
    ensures
        converts_buffer(before, after, frames, out.len()),
{
}

proof fn lemma_converts_on<S: Copy>(
    states: Seq<InlineConverter<S>>,
    sizes: Seq<nat>,
    made: Seq<nat>,
)
    requires
        converts_on(states, sizes, made),
    ensures
        crate::resample::total(made) == crate::resample::produced(
            states[0].spec_phase(),
            states[0].spec_src_rate() as int,
            states[0].spec_dst_rate() as int,
            sizes,
        ),
    decreases sizes.len(),
{
    if sizes.len() > 0 {
        let rest = states.drop_first();
        let rest_sizes = sizes.drop_first();
        let rest_made = made.drop_first();
        let first = states[0];
        let n = made[0];
        let end = sizes[0] * first.spec_dst_rate();
        let step = first.spec_src_rate();
        crate::resample::lemma_positions_bounds(first.spec_phase(), step as int, end);
        assert((n - 1) * step == n * step - step) by (nonlinear_arith);
        assert(0 <= end) by (nonlinear_arith)
            requires
                end == sizes[0] * first.spec_dst_rate(),
        ;
        assert(rest[0] == states[1]);
        assert(n == 0 ==> n * step == 0) by (nonlinear_arith);
        assert(rest[0].wf());
        assert forall|i: int| 0 <= i < rest_made.len() implies converts_buffer(
            rest[i],
            rest[i + 1],
            rest_sizes[i],
            #[trigger] rest_made[i],
        ) by {
            assert(rest_made[i] == made[i + 1]);
        }
        lemma_converts_on(rest, rest_sizes, rest_made);
    }
}

/// Resampling does not drift: from the start of a stream, however it is cut
/// into buffers, the number of samples that come out is the number that went
/// in, times the rate ratio, rounded up once.
pub proof fn law_resampling_does_not_drift<S: Copy>(
    states: Seq<InlineConverter<S>>,
    sizes: Seq<nat>,
    made: Seq<nat>,
)
    requires
        converts_on(states, sizes, made),
        states[0].spec_phase() == 0,
    ensures
        crate::resample::total(made) == crate::resample::ceil_div(
            crate::resample::total(sizes) * states[0].spec_dst_rate(),
            states[0].spec_src_rate() as int,
        ),
{
    let src_rate = states[0].spec_src_rate();
    let dst_rate = states[0].spec_dst_rate();
    lemma_converts_on(states, sizes, made);
    crate::resample::lemma_produced(0, src_rate as int, dst_rate as int, sizes);
    let whole = crate::resample::total(sizes);
    let end = whole * dst_rate;
    if end <= 0 {
        assert(end == 0) by (nonlinear_arith)
            requires
                whole >= 0,
                dst_rate > 0,
                end == whole * dst_rate,
                end <= 0,
        ;
        assert((src_rate - 1) / (src_rate as int) == 0) by (nonlinear_arith)
            requires
                src_rate > 0,
        ;
    }
}

/// A constant signal keeps its level: where `lerp` between two equal samples
/// gives that sample, every output read from a constant `x` that follows `x` is
/// `x`.
pub proof fn law_a_constant_signal_keeps_its_level<S, L: Fn(S, S, u32, u32) -> S>(
    mono: Seq<S>,
    src_rate: u32,
    dst_rate: u32,
    phase: int,
    lerp: L,
    x: S,
    out: Seq<S>,
)
    requires
        src_rate > 0,
        dst_rate > 0,
        phase >= 0,
        forall|i: int| 0 <= i < mono.len() ==> mono[i] == x,
        forall|n: u32, d: u32, v: S| call_ensures(lerp, (x, x, n, d), v) ==> v == x,
        resamples(mono, src_rate, dst_rate, phase, x, lerp, out),
    ensures
        forall|k: int| 0 <= k < out.len() ==> #[trigger] out[k] == x,
{
    if src_rate != dst_rate {
        assert forall|k: int| 0 <= k < out.len() implies #[trigger] out[k] == x by {
            let end = mono.len() * dst_rate;
            crate::resample::lemma_positions_bounds(phase, src_rate as int, end);
            let n = out.len();
            let pos = phase + k * src_rate;
            assert(0 <= k * src_rate <= (n - 1) * src_rate) by (nonlinear_arith)
                requires
                    0 <= k <= n - 1,
            ;
            crate::resample::lemma_position_index(pos, dst_rate as int, mono.len() as int);
        }
    }
}

/// The engine's flag for a gap in the stream.
pub const BUFFERFLAGS_DATA_DISCONTINUITY: u32 = 1;

/// The engine's flag for a buffer whose contents are undefined.
pub const BUFFERFLAGS_SILENT: u32 = 2;

/// The engine's flag for a buffer whose time stamp cannot be trusted.
pub const BUFFERFLAGS_TIMESTAMP_ERROR: u32 = 4;

/// What the engine's per-buffer flags mean.
#[derive(Debug, Clone, Copy, PartialEq, Eq, Structural)]
pub struct BufferStatus {
    /// The contents are undefined memory and must be replaced with silence.
    pub silent: bool,
    /// The stream is not intact here, which is worth reporting.
    pub glitch: bool,
}

impl BufferStatus {
    /// A flag is set in `flags`.
    pub open spec fn has(flags: u32, bit: u32) -> bool {
        flags & bit != 0
    }

    /// What `flags` says. Flags other than the three known ones say nothing.
    pub fn from_flags(flags: u32) -> (r: Self)
        ensures
            r.silent == Self::has(flags, BUFFERFLAGS_SILENT),
            r.glitch == (r.silent || Self::has(flags, BUFFERFLAGS_DATA_DISCONTINUITY) || Self::has(
                flags,
                BUFFERFLAGS_TIMESTAMP_ERROR,
            )),
    {
        let silent = flags & BUFFERFLAGS_SILENT != 0;
        BufferStatus {
            silent,
            glitch: silent || flags & BUFFERFLAGS_DATA_DISCONTINUITY != 0 || flags
                & BUFFERFLAGS_TIMESTAMP_ERROR != 0,
        }
    }
}

/// How long the pump waits for the engine before it looks at the stop flag.
pub const WAIT_TIMEOUT_MS: u32 = 200;

/// A stream that never delivered is reported once it is this old.
pub const NO_AUDIO_AFTER_NS: u64 = 2_000_000_000;

/// The least time between two such reports.
pub const NO_AUDIO_REPEAT_NS: u64 = 5_000_000_000;

/// What happened since the pump last asked for something.
pub enum CaptureEvent<S> {
    /// The stop flag was read.
    StopFlag(bool),
    /// Waiting for the engine ended, this long after the pump was started.
    Waited { signalled: bool, elapsed_ns: u64 },
    /// The engine handed over a buffer of interleaved samples.
    Buffer { samples: Vec<S>, flags: u32 },
    /// The engine has nothing more for this tick.
    Empty,
    /// The engine failed.
    Failed(AudioError),
}

/// What the pump asks for next.
pub enum CaptureAction {
    /// Read the stop flag.
    ReadStopFlag,
    /// Wait for the engine to signal.
    Wait { timeout_ms: u32 },
    /// Ask the engine for its next buffer.
    NextBuffer,
    /// End the stream with this result.
    Finish(Result<(), AudioError>),
}

/// One step of the pump: what to do next and what to tell the sink first.
pub struct CaptureStep<S> {
    pub action: CaptureAction,
    /// The flags of a buffer that the stream is not intact at.
    pub glitch: Option<u32>,
    /// The frames that are now complete, in order.
    pub frames: Vec<Frame<S>>,
    /// Audio has begun to flow.
    pub first_buffer: bool,
    /// No audio has arrived for so long that the user should be told why that
    /// may be.
    pub warn_no_audio: bool,
}

/// Drains the engine into 480-sample mono frames until it is asked to stop.
///
/// The pump decides; the audio thread around it waits, asks the engine and
/// hands the frames on.
pub struct CapturePump<S> {
    channels: usize,
    zero: S,
    converter: Option<InlineConverter<S>>,
    accumulator: FrameAccumulator<S>,
    got_first_buffer: bool,
    last_warning_ns: u64,
}

impl<S: Copy> CapturePump<S> {
    pub closed spec fn spec_channels(&self) -> usize {
        self.channels
    }

    pub closed spec fn spec_zero(&self) -> S {
        self.zero
    }

    pub closed spec fn spec_converter(&self) -> Option<InlineConverter<S>> {
        self.converter
    }

    /// The samples held back for the next frame.
    pub closed spec fn held(&self) -> Seq<S> {
        self.accumulator@
    }

    /// A buffer has arrived.
    pub closed spec fn flowing(&self) -> bool {
        self.got_first_buffer
    }

    /// When the user was last told that no audio arrives.
    pub closed spec fn spec_last_warning(&self) -> u64 {
        self.last_warning_ns
    }

    pub open spec fn wf(&self) -> bool {
        &&& self.held().len() < FRAME_SAMPLES
        &&& self.spec_converter() matches Some(c) ==> c.wf() && c.spec_src_channels()
            == self.spec_channels()
    }

    /// Everything but the clock of the warnings is as in `other`.
    pub open spec fn same_stream(&self, other: &Self) -> bool {
        &&& self.spec_channels() == other.spec_channels()
        &&& self.spec_zero() == other.spec_zero()
        &&& self.spec_converter() == other.spec_converter()
        &&& self.held() == other.held()
        &&& self.flowing() == other.flowing()
    }

    /// A pump at the start of a stream of `channels` interleaved channels.
    /// `resample_from` is the device's rate when its samples need converting.
    pub fn new(channels: usize, resample_from: Option<u32>, zero: S) -> (r: Self)
        requires
            resample_from matches Some(rate) ==> rate > 0,
        ensures
            r.wf(),
            r.spec_channels() == channels,
            r.spec_zero() == zero,
            r.held() == Seq::<S>::empty(),
            !r.flowing(),
            r.spec_last_warning() == 0,
            r.spec_converter() is Some <==> resample_from is Some,
            r.spec_converter() matches Some(c) ==> {
                &&& Some(c.spec_src_rate()) == resample_from
                &&& c.spec_dst_rate() == SAMPLE_RATE
                &&& c.spec_zero() == zero
                &&& c.spec_last() == zero
                &&& c.spec_phase() == 0
            },
    {
        let converter: Option<InlineConverter<S>> = match resample_from {
            Some(rate) => Some(InlineConverter::new(rate, channels, SAMPLE_RATE, zero)),
            None => None,
        };
        CapturePump {
            channels,
            zero,
            converter,
            accumulator: FrameAccumulator::new(),
            got_first_buffer: false,
            last_warning_ns: 0,
        }
    }

    /// What a buffer is taken to hold: its samples, or silence of the same
    /// length where the engine says that its contents are undefined.
    pub open spec fn heard(&self, samples: Seq<S>, flags: u32) -> Seq<S> {
        if BufferStatus::has(flags, BUFFERFLAGS_SILENT) {
            Seq::new(samples.len(), |i: int| self.spec_zero())
        } else {
            samples
        }
    }

    /// How many whole interleaved frames so many samples are.
    pub open spec fn whole_frames(&self, samples: int) -> int {
        if self.spec_channels() == 0 {
            samples
        } else {
            samples / (self.spec_channels() as int)
        }
    }

    /// `mono` is what `heard` gives at the pipeline's format, and takes the
    /// converter, if there is one, from this pump's state to that of `after`.
    pub open spec fn conforms<A: Fn(S, S) -> S, D: Fn(S, usize) -> S, L: Fn(S, S, u32, u32) -> S>(
        &self,
        after: &Self,
        heard: Seq<S>,
        plus: A,
        divide: D,
        lerp: L,
        mono: Seq<S>,
    ) -> bool {
        match (self.spec_converter(), after.spec_converter()) {
            (Some(before), Some(then)) => before.converts(
                &then,
                heard,
                self.whole_frames(heard.len() as int),
                plus,
                divide,
                lerp,
                mono,
            ),
            (None, None) => mono == heard,
            _ => false,
        }
    }

    /// A buffer of `samples` took the pump from this state to `after` and gave
    /// `frames`.
    pub open spec fn takes_buffer<
        A: Fn(S, S) -> S,
        D: Fn(S, usize) -> S,
        L: Fn(S, S, u32, u32) -> S,
    >(
        &self,
        after: &Self,
        samples: Seq<S>,
        flags: u32,
        plus: A,
        divide: D,
        lerp: L,
        frames: Seq<Frame<S>>,
    ) -> bool {
        &&& after.spec_channels() == self.spec_channels()
        &&& after.spec_zero() == self.spec_zero()
        &&& after.flowing()
        &&& exists|mono: Seq<S>| #[trigger]
            gathers(self.held(), mono, frames, after.held()) && self.conforms(
                after,
                self.heard(samples, flags),
                plus,
                divide,
                lerp,
                mono,
            )
    }

    /// The user is to be told, this long after the start, that no audio has
    /// arrived.
    pub open spec fn warning_due(&self, elapsed_ns: u64) -> bool {
        &&& !self.flowing()
        &&& elapsed_ns > NO_AUDIO_AFTER_NS
        &&& elapsed_ns - self.spec_last_warning() > NO_AUDIO_REPEAT_NS
    }

    /// Take in what happened and say what to do next.
    ///
    /// The loop this makes: read the stop flag, wait, then take buffers until
    /// the engine has none; a timeout or an empty engine is no failure.
    pub fn step<A: Fn(S, S) -> S, D: Fn(S, usize) -> S, L: Fn(S, S, u32, u32) -> S>(
        &mut self,
        event: CaptureEvent<S>,
        plus: &A,
        divide: &D,
        lerp: &L,
    ) -> (r: CaptureStep<S>)
        requires
            old(self).wf(),
            forall|a: S, b: S| call_requires(*plus, (a, b)),
            forall|a: S, n: usize| call_requires(*divide, (a, n)),
            forall|a: S, b: S, n: u32, d: u32| n < d ==> call_requires(*lerp, (a, b, n, d)),
        ensures
            final(self).wf(),
            r.action == (match event {
                CaptureEvent::StopFlag(true) => CaptureAction::Finish(Ok(())),
                CaptureEvent::StopFlag(false) => CaptureAction::Wait {
                    timeout_ms: WAIT_TIMEOUT_MS,
                },
                CaptureEvent::Waited { signalled, .. } => if signalled {
                    CaptureAction::NextBuffer
                } else {
                    CaptureAction::ReadStopFlag
                },
                CaptureEvent::Buffer { .. } => CaptureAction::NextBuffer,
                CaptureEvent::Empty => CaptureAction::ReadStopFlag,
                CaptureEvent::Failed(error) => CaptureAction::Finish(Err(error)),
            }),
            event !is Buffer ==> {
                &&& final(self).same_stream(old(self))
                &&& r.frames@.len() == 0
                &&& r.glitch is None
                &&& !r.first_buffer
            },
            event is Buffer ==> {
                &&& r.glitch == (if BufferStatus::has(event->flags, BUFFERFLAGS_SILENT)
                    || BufferStatus::has(event->flags, BUFFERFLAGS_DATA_DISCONTINUITY)
                    || BufferStatus::has(event->flags, BUFFERFLAGS_TIMESTAMP_ERROR) {
                    Some(event->flags)
                } else {
                    None
                })
                &&& r.first_buffer == !old(self).flowing()
                &&& old(self).takes_buffer(
                    final(self),
                    event->samples@,
                    event->flags,
                    *plus,
                    *divide,
                    *lerp,
                    r.frames@,
                )
            },
            r.warn_no_audio == (event is Waited && !event->signalled && old(self).warning_due(
                event->elapsed_ns,
            )),
            final(self).spec_last_warning() == (if r.warn_no_audio {
                event->elapsed_ns
            } else {
                old(self).spec_last_warning()
            }),
    {
        let mut step: CaptureStep<S> = CaptureStep {
            action: CaptureAction::ReadStopFlag,
            glitch: None,
            frames: Vec::new(),
            first_buffer: false,
            warn_no_audio: false,
        };
        match event {
            CaptureEvent::StopFlag(stop) => {
                if stop {
                    step.action = CaptureAction::Finish(Ok(()));
                } else {
                    step.action = CaptureAction::Wait { timeout_ms: WAIT_TIMEOUT_MS };
                }
            },
            CaptureEvent::Waited { signalled, elapsed_ns } => {
                if signalled {
                    step.action = CaptureAction::NextBuffer;
                } else if !self.got_first_buffer && elapsed_ns > NO_AUDIO_AFTER_NS && elapsed_ns
                    > self.last_warning_ns && elapsed_ns - self.last_warning_ns
                    > NO_AUDIO_REPEAT_NS {
                    step.warn_no_audio = true;
                    self.last_warning_ns = elapsed_ns;
                }
            },
            CaptureEvent::Buffer { samples, flags } => {
                step.action = CaptureAction::NextBuffer;
                step.first_buffer = !self.got_first_buffer;
                let (glitch, frames) = self.take_buffer(samples, flags, plus, divide, lerp);
                step.glitch = glitch;
                step.frames = frames;
            },
            CaptureEvent::Empty => {},
            CaptureEvent::Failed(error) => {
                step.action = CaptureAction::Finish(Err(error));
            },
        }
        step
    }

    /// Take in one buffer: the flags to report and the frames it completed.
    fn take_buffer<A: Fn(S, S) -> S, D: Fn(S, usize) -> S, L: Fn(S, S, u32, u32) -> S>(
        &mut self,
        samples: Vec<S>,
        flags: u32,
        plus: &A,
        divide: &D,
        lerp: &L,
    ) -> (r: (Option<u32>, Vec<Frame<S>>))
        requires
            old(self).wf(),
            forall|a: S, b: S| call_requires(*plus, (a, b)),
            forall|a: S, n: usize| call_requires(*divide, (a, n)),
            forall|a: S, b: S, n: u32, d: u32| n < d ==> call_requires(*lerp, (a, b, n, d)),
        ensures
            final(self).wf(),
            final(self).spec_last_warning() == old(self).spec_last_warning(),
            r.0 == (if BufferStatus::has(flags, BUFFERFLAGS_SILENT) || BufferStatus::has(
                flags,
                BUFFERFLAGS_DATA_DISCONTINUITY,
            ) || BufferStatus::has(flags, BUFFERFLAGS_TIMESTAMP_ERROR) {
                Some(flags)
            } else {
                None
            }),
            old(self).takes_buffer(
                final(self),
                samples@,
                flags,
                *plus,
                *divide,
                *lerp,
                r.1@,
            ),
    {
        self.got_first_buffer = true;
        let status = BufferStatus::from_flags(flags);
        let glitch: Option<u32> = if status.glitch {
            Some(flags)
        } else {
            None
        };
        let heard: Vec<S> = if status.silent {
            silence(self.zero, samples.len())
        } else {
            samples
        };
        assert(heard@ =~= old(self).heard(samples@, flags));
        let length: usize = heard.len();
        let frames: usize = if self.channels == 0 {
            length
        } else {
            length / self.channels
        };
        proof {
            if self.channels != 0 {
                vstd::arithmetic::div_mod::lemma_fundamental_div_mod(
                    length as int,
                    self.channels as int,
                );
            }
            assert(frames * self.channels <= length) by (nonlinear_arith)
                requires
                    self.channels == 0 || length == self.channels * frames + length
                        % self.channels,
                    self.channels == 0 || 0 <= length % self.channels,
                    length >= 0,
            ;
        }
        let mono: Vec<S> = match self.converter.take() {
            Some(mut c) => {
                let out = c.process(heard.as_slice(), frames, plus, divide, lerp);
                self.converter = Some(c);
                out
            },
            None => heard,
        };
        let out = self.accumulator.feed(mono.as_slice());
        assert(old(self).conforms(
            self,
            old(self).heard(samples@, flags),
            *plus,
            *divide,
            *lerp,
            mono@,
        ));
        assert(gathers(old(self).held(), mono@, out@, self.held()));
        (glitch, out)
    }
}

/// What lies in a buffer that the engine calls undefined is never heard: two
/// such buffers of the same length are taken for the same, whatever they hold.
pub proof fn law_undefined_memory_is_never_heard<S: Copy>(
    pump: CapturePump<S>,
    a: Seq<S>,
    b: Seq<S>,
    flags: u32,
)
    requires
        BufferStatus::has(flags, BUFFERFLAGS_SILENT),
        a.len() == b.len(),
    ensures
        pump.heard(a, flags) == pump.heard(b, flags),
{
}

/// So many samples of silence.
pub fn silence<S: Copy>(zero: S, len: usize) -> (r: Vec<S>)
    ensures
        r@ == Seq::new(len as nat, |i: int| zero),
{
    let mut out: Vec<S> = Vec::with_capacity(len);
    for i in 0..len
        invariant
            out@.len() == i,
            forall|j: int| 0 <= j < i ==> out@[j] == zero,
    {
        out.push(zero);
    }
    assert(out@ =~= Seq::new(len as nat, |i: int| zero));
    out
}

/// The flags are the ones that Windows' engine sets: bit 0 for a gap, bit 1 for
/// undefined contents, bit 2 for a time stamp that cannot be trusted.
pub proof fn law_the_flags_are_the_engines_own(flags: u32)
    ensures
        BufferStatus::has(flags, BUFFERFLAGS_DATA_DISCONTINUITY) <==> flags % 2 == 1,
        BufferStatus::has(flags, BUFFERFLAGS_SILENT) <==> (flags / 2) % 2 == 1,
        BufferStatus::has(flags, BUFFERFLAGS_TIMESTAMP_ERROR) <==> (flags / 4) % 2 == 1,
{
    assert((flags & 1 != 0) <==> flags % 2 == 1) by (bit_vector);
    assert((flags & 2 != 0) <==> (flags / 2) % 2 == 1) by (bit_vector);
    assert((flags & 4 != 0) <==> (flags / 4) % 2 == 1) by (bit_vector);
}

/// Every whole interleaved frame of a buffer is taken in, and no part of one.
pub proof fn law_every_whole_frame_is_taken_in<S: Copy>(pump: CapturePump<S>, samples: nat)
    requires
        pump.spec_channels() > 0,
    ensures
        pump.whole_frames(samples as int) >= 0,
        pump.whole_frames(samples as int) * pump.spec_channels() <= samples,
        samples < (pump.whole_frames(samples as int) + 1) * pump.spec_channels(),
{
    let n = samples as int;
    let d = pump.spec_channels() as int;
    vstd::arithmetic::div_mod::lemma_fundamental_div_mod(n, d);
    let q = n / d;
    assert(q * d <= n < (q + 1) * d && q >= 0) by (nonlinear_arith)
        requires
            n == d * q + n % d,
            0 <= n % d < d,
            n >= 0,
            d > 0,
    ;
}

/// Place `i` of a stream that was cut into frames of 480 and a rest.
pub open spec fn place_in<S>(frames: Seq<Frame<S>>, rest: Seq<S>, i: int) -> S {
    if i < 480 * frames.len() {
        frames[i / 480]@[i % 480]
    } else {
        rest[i - 480 * frames.len()]
    }
}

/// A device that already delivers mono at 48 kHz is passed on untouched: every
/// sample of a buffer, or as much silence where its contents are undefined,
/// follows what was held, in order, in frames of 480 and what is held then.
pub proof fn law_a_matching_device_is_passed_on<
    S: Copy,
    A: Fn(S, S) -> S,
    D: Fn(S, usize) -> S,
    L: Fn(S, S, u32, u32) -> S,
>(
    before: CapturePump<S>,
    after: CapturePump<S>,
    samples: Seq<S>,
    flags: u32,
    plus: A,
    divide: D,
    lerp: L,
    frames: Seq<Frame<S>>,
)
    requires
        before.spec_converter() is None,
        before.takes_buffer(&after, samples, flags, plus, divide, lerp, frames),
    ensures
        480 * frames.len() + after.held().len() == before.held().len() + samples.len(),
        forall|i: int|
            0 <= i < before.held().len() + samples.len() ==> #[trigger] place_in(
                frames,
                after.held(),
                i,
            ) == (if i < before.held().len() {
                before.held()[i]
            } else if (flags / 2) % 2 == 1 {
                before.spec_zero()
            } else {
                samples[i - before.held().len()]
            }),
{
    law_the_flags_are_the_engines_own(flags);
    let mono = choose|mono: Seq<S>| #[trigger]
        gathers(before.held(), mono, frames, after.held()) && before.conforms(
            &after,
            before.heard(samples, flags),
            plus,
            divide,
            lerp,
            mono,
        );
    lemma_concat_len(frames);
    let together = concat_frames(frames) + after.held();
    assert(together.len() == before.held().len() + samples.len());
    assert forall|i: int| 0 <= i < before.held().len() + samples.len() implies #[trigger] place_in(
        frames,
        after.held(),
        i,
    ) == (if i < before.held().len() {
        before.held()[i]
    } else if (flags / 2) % 2 == 1 {
        before.spec_zero()
    } else {
        samples[i - before.held().len()]
    }) by {
        assert(together[i] == (before.held() + mono)[i]);
        if i < 480 * frames.len() {
            lemma_concat_index(frames, i);
        }
    }
}

/// Any other device is heard as the average of its channels at even places:
/// what a buffer adds behind what was held is, sample for sample, the signal
/// `xs` that its channels average to, read on from where the buffer before it
/// ended, in frames of 480 and what is held then.
pub proof fn law_any_device_is_heard_at_even_places<
    S: Copy,
    A: Fn(S, S) -> S,
    D: Fn(S, usize) -> S,
    L: Fn(S, S, u32, u32) -> S,
>(
    before: CapturePump<S>,
    after: CapturePump<S>,
    samples: Seq<S>,
    flags: u32,
    plus: A,
    divide: D,
    lerp: L,
    frames: Seq<Frame<S>>,
    worth: spec_fn(S) -> int,
    fine: spec_fn(S) -> int,
    xs: Seq<int>,
)
    requires
        before.wf(),
        before.spec_channels() > 0,
        before.spec_converter() matches Some(c) && {
            &&& c.spec_src_rate() != c.spec_dst_rate()
            &&& exact_mix(plus, divide, c.spec_zero(), worth)
            &&& exact_lerp(lerp, c.spec_dst_rate(), worth, fine)
        },
        (flags / 2) % 2 == 0,
        before.takes_buffer(&after, samples, flags, plus, divide, lerp, frames),
        samples.len() == xs.len() * before.spec_channels(),
        forall|f: int|
            0 <= f < xs.len() ==> crate::dfn_frontend::sum(
                Seq::new(
                    before.spec_channels() as nat,
                    |c: int| worth(samples[f * before.spec_channels() + c]),
                ),
            ) == #[trigger] xs[f] * before.spec_channels(),
    ensures
        forall|k: int|
            before.held().len() <= k < 480 * frames.len() + after.held().len() ==> fine(
                #[trigger] place_in(frames, after.held(), k),
            ) == crate::resample::between_samples(
                worth(before.spec_converter()->0.spec_last()),
                xs,
                before.spec_converter()->0.spec_phase() + (k - before.held().len())
                    * before.spec_converter()->0.spec_src_rate(),
                before.spec_converter()->0.spec_dst_rate() as int,
            ),
        forall|k: int|
            0 <= k < before.held().len() ==> #[trigger] place_in(frames, after.held(), k)
                == before.held()[k],
{
    law_the_flags_are_the_engines_own(flags);
    let heard = before.heard(samples, flags);
    assert(heard == samples);
    let mono = choose|mono: Seq<S>| #[trigger]
        gathers(before.held(), mono, frames, after.held()) && before.conforms(
            &after,
            heard,
            plus,
            divide,
            lerp,
            mono,
        );
    let c = before.spec_converter()->0;
    let then = after.spec_converter()->0;
    let n = before.whole_frames(samples.len() as int);
    law_every_whole_frame_is_taken_in(before, samples.len());
    let channels = before.spec_channels();
    assert(n == xs.len()) by (nonlinear_arith)
        requires
            n * channels <= samples.len() < (n + 1) * channels,
            samples.len() == xs.len() * channels,
            channels > 0,
    ;
    law_conversion_is_the_average_of_the_channels_at_even_places(
        c,
        then,
        samples,
        xs.len(),
        plus,
        divide,
        lerp,
        mono,
        worth,
        fine,
        xs,
    );
    lemma_concat_len(frames);
    let together = concat_frames(frames) + after.held();
    let expected = before.held() + mono;
    assert(together == expected);
    assert(expected.len() == 480 * frames.len() + after.held().len());
    assert forall|k: int| 0 <= k < expected.len() implies #[trigger] place_in(
        frames,
        after.held(),
        k,
    ) == expected[k] by {
        assert(together[k] == expected[k]);
        if k < 480 * frames.len() {
            lemma_concat_index(frames, k);
        }
    }
    assert forall|k: int|
        before.held().len() <= k < 480 * frames.len() + after.held().len() implies fine(
        #[trigger] place_in(frames, after.held(), k),
    ) == crate::resample::between_samples(
        worth(c.spec_last()),
        xs,
        c.spec_phase() + (k - before.held().len()) * c.spec_src_rate(),
        c.spec_dst_rate() as int,
    ) by {
        let j = k - before.held().len();
        assert(expected[k] == mono[j]);
    }
}

} // verus!
