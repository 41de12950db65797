//! The render side: mono 48 kHz frames, turned into whatever the device plays.
use vstd::prelude::*;
use vstd::slice::slice_subrange;

use crate::error::AudioError;
use crate::{Frame, FRAME_SAMPLES, SAMPLE_RATE};

verus! {

/// How many mono 48 kHz samples fill `frames` frames at the device's rate.
pub open spec fn samples_needed(frames: int, device_rate: int) -> int {
    crate::resample::ceil_div(frames * SAMPLE_RATE, device_rate)
}

fn count_samples_needed(frames: u32, device_rate: u32) -> (r: u64)
    requires
        device_rate > 0,
    ensures
        r == samples_needed(frames as int, device_rate as int),
{
    let wanted: u64 = frames as u64 * SAMPLE_RATE as u64;
    assert(wanted == frames * 48_000);
    let rate: u64 = device_rate as u64;
    (wanted + (rate - 1)) / rate
}

/// How many mono 48 kHz samples are needed to fill `frames` frames at the
/// device's rate.
///
/// Rounds up. Coming up short would leave the tail of the engine's buffer
/// unwritten; one spare sample stays pending and is used by the next buffer.
pub fn source_samples_needed(frames: u32, device_rate: u32) -> (r: usize)
    requires
        device_rate > 0,
        samples_needed(frames as int, device_rate as int) <= usize::MAX,
    ensures
        r == samples_needed(frames as int, device_rate as int),
{
    count_samples_needed(frames, device_rate) as usize
}

/// The two samples that the output at position `pos` lies between: the one
/// before the position and the one it falls into. Where either is missing,
/// `last` stands in.
pub open spec fn around<S>(src: Seq<S>, pos: int, rate: u32, last: S) -> (S, S) {
    let idx = pos / (rate as int);
    let a = if 0 < idx <= src.len() {
        src[idx - 1]
    } else {
        last
    };
    let b = if idx < src.len() {
        src[idx]
    } else {
        last
    };
    (a, b)
}

/// `value` is the interpolation of `src` at position `pos`, counted in steps
/// of `1 / rate` of a source sample.
pub open spec fn plays<S, L: Fn(S, S, u32, u32) -> S>(
    src: Seq<S>,
    pos: int,
    rate: u32,
    last: S,
    lerp: L,
    value: S,
) -> bool {
    let (a, b) = around(src, pos, rate, last);
    call_ensures(lerp, (a, b, (pos % (rate as int)) as u32, rate), value)
}

/// `out` is one frame after another, and every channel of a frame holds that
/// frame's sample of `mono`.
pub open spec fn spreads<S>(mono: Seq<S>, channels: int, out: Seq<S>) -> bool {
    &&& out.len() == mono.len() * channels
    &&& forall|i: int| 0 <= i < out.len() ==> #[trigger] out[i] == mono[i / channels]
}

/// What holds of every channel of every frame holds of every place.
proof fn lemma_spreads<S>(mono: Seq<S>, channels: int, out: Seq<S>)
    requires
        channels >= 0,
        out.len() == mono.len() * channels,
        forall|f: int, c: int|
            0 <= f < mono.len() && 0 <= c < channels ==> #[trigger] out[f * channels + c]
                == mono[f],
    ensures
        spreads(mono, channels, out),
{
    assert forall|i: int| 0 <= i < out.len() implies #[trigger] out[i] == mono[i / channels] by {
        if channels == 0 {
            assert(mono.len() * channels == 0) by (nonlinear_arith)
                requires
                    channels == 0,
            ;
        } else {
            crate::resample::lemma_position_index(i, channels, mono.len() as int);
            vstd::arithmetic::div_mod::lemma_fundamental_div_mod(i, channels);
            let f = i / channels;
            let c = i % channels;
            assert(f * channels + c == i) by (nonlinear_arith)
                requires
                    i == channels * f + c,
            ;
            assert(out[f * channels + c] == mono[f]);
        }
    }
}

/// Playing `src` into `frames` frames, `out`, took the converter from `before`
/// to `after` and used up `consumed` source samples.
pub open spec fn writes<S: Copy, L: Fn(S, S, u32, u32) -> S>(
    before: UpConverter<S>,
    after: UpConverter<S>,
    src: Seq<S>,
    frames: int,
    lerp: L,
    out: Seq<S>,
    consumed: int,
) -> bool {
    let passed = before.passed(frames);
    &&& after.same_setup(&before)
    &&& consumed == if passed <= src.len() {
        passed
    } else {
        src.len() as int
    }
    &&& after.spec_phase() == before.advance(frames) % (before.spec_dst_rate() as int)
    &&& after.spec_last() == if passed == 0 {
        before.spec_last()
    } else if passed <= src.len() {
        src[passed - 1]
    } else {
        src.last()
    }
    &&& exists|mono: Seq<S>|
        {
            &&& mono.len() == frames
            &&& forall|f: int|
                0 <= f < frames ==> plays(
                    src,
                    before.advance(f),
                    before.spec_dst_rate(),
                    before.spec_last(),
                    lerp,
                    #[trigger] mono[f],
                )
            &&& #[trigger] spreads(mono, before.spec_channels() as int, out)
        }
}

/// Mono 48 kHz to interleaved frames at the device's rate.
///
/// It carries the last source sample it passed and the fraction of a sample it
/// stands at, so that buffers join without a seam.
pub struct UpConverter<S> {
    src_rate: u32,
    dst_rate: u32,
    dst_channels: usize,
    zero: S,
    phase: u32,
    last: S,
}

impl<S: Copy> UpConverter<S> {
    pub closed spec fn spec_src_rate(&self) -> u32 {
        self.src_rate
    }

    pub closed spec fn spec_dst_rate(&self) -> u32 {
        self.dst_rate
    }

    pub closed spec fn spec_channels(&self) -> usize {
        self.dst_channels
    }

    pub closed spec fn spec_zero(&self) -> S {
        self.zero
    }

    /// The last source sample that was passed.
    pub closed spec fn spec_last(&self) -> S {
        self.last
    }

    /// Where the next output is read, in steps of `1 / dst_rate` of a source
    /// sample.
    pub closed spec fn spec_phase(&self) -> int {
        self.phase as int
    }

    /// The read position is a fraction of one source sample.
    pub open spec fn wf(&self) -> bool {
        &&& self.spec_dst_rate() > 0
        &&& 0 <= self.spec_phase() < self.spec_dst_rate()
    }

    /// The parts that playing never changes.
    pub open spec fn same_setup(&self, other: &Self) -> bool {
        &&& self.spec_src_rate() == other.spec_src_rate()
        &&& self.spec_dst_rate() == other.spec_dst_rate()
        &&& self.spec_channels() == other.spec_channels()
        &&& self.spec_zero() == other.spec_zero()
    }

    /// How far the read position has moved after `frames` frames.
    pub open spec fn advance(&self, frames: int) -> int {
        self.spec_phase() + frames * self.spec_src_rate()
    }

    /// The whole source samples that `frames` frames move past.
    pub open spec fn passed(&self, frames: int) -> int {
        self.advance(frames) / (self.spec_dst_rate() as int)
    }

    /// A converter at the start of a stream; before it there was silence.
    pub fn new(src_rate: u32, dst_rate: u32, dst_channels: usize, zero: S) -> (r: Self)
        requires
            dst_rate > 0,
        ensures
            r.wf(),
            r.spec_src_rate() == src_rate,
            r.spec_dst_rate() == dst_rate,
            r.spec_channels() == dst_channels,
            r.spec_zero() == zero,
            r.spec_last() == zero,
            r.spec_phase() == 0,
    {
        UpConverter { src_rate, dst_rate, dst_channels, zero, phase: 0, last: zero }
    }

    /// Resample mono `src` into `frames` frames of the engine's buffer `dst`,
    /// all channels alike. Returns how many source samples were used up.
    ///
    /// The whole buffer is written: with silence when there is nothing to
    /// play, and beyond the end of `src` from the last sample passed.
    pub fn write_into<L: Fn(S, S, u32, u32) -> S>(
        &mut self,
        src: &[S],
        dst: &mut [S],
        frames: usize,
        lerp: &L,
    ) -> (consumed: usize)
        requires
            old(self).wf(),
            old(dst)@.len() == frames * old(self).spec_channels(),
            forall|a: S, b: S, n: u32, d: u32| n < d ==> call_requires(*lerp, (a, b, n, d)),
        ensures
            final(self).wf(),
            final(self).same_setup(old(self)),
            src@.len() == 0 ==> {
                &&& consumed == 0
                &&& *final(self) == *old(self)
                &&& final(dst)@ == Seq::new(old(dst)@.len(), |i: int| old(self).spec_zero())
            },
            src@.len() > 0 ==> writes(
                *old(self),
                *final(self),
                src@,
                frames as int,
                *lerp,
                final(dst)@,
                consumed as int,
            ),
    {
        let length: usize = src.len();
        if length == 0 {
            let total: usize = dst.len();
            for i in 0..total
                invariant
                    total == dst@.len(),
                    dst@.len() == old(dst)@.len(),
                    *self == *old(self),
                    self.zero == old(self).spec_zero(),
                    forall|j: int| 0 <= j < i ==> dst@[j] == self.zero,
            {
                dst[i] = self.zero;
            }
            assert(dst@ =~= Seq::new(old(dst)@.len(), |i: int| old(self).spec_zero()));
            return 0;
        }
        let channels: usize = self.dst_channels;
        let rate: u32 = self.dst_rate;
        let total: usize = dst.len();
        let ghost mut mono: Seq<S> = Seq::empty();
        let mut pos: u128 = self.phase as u128;
        assert(0 * channels == 0);
        assert(0 * old(self).spec_src_rate() == 0);
        for f in 0..frames
            invariant
                length == src@.len(),
                length > 0,
                channels == old(self).spec_channels(),
                rate == old(self).spec_dst_rate(),
                rate > 0,
                *self == *old(self),
                self.last == old(self).spec_last(),
                self.src_rate == old(self).spec_src_rate(),
                total == dst@.len(),
                dst@.len() == old(dst)@.len(),
                total == frames * channels,
                old(self).wf(),
                pos == old(self).advance(f as int),
                pos <= rate + f * 0xffff_ffff,
                mono.len() == f,
                forall|a: S, b: S, n: u32, d: u32| n < d ==> call_requires(*lerp, (a, b, n, d)),
                forall|g: int|
                    0 <= g < f ==> plays(
                        src@,
                        old(self).advance(g),
                        rate,
                        old(self).spec_last(),
                        *lerp,
                        #[trigger] mono[g],
                    ),
                forall|g: int, c: int|
                    0 <= g < f && 0 <= c < channels ==> #[trigger] dst@[g * channels + c]
                        == mono[g],
        {
            proof {
                vstd::arithmetic::div_mod::lemma_fundamental_div_mod(pos as int, rate as int);
                assert(pos / (rate as u128) <= pos) by (nonlinear_arith)
                    requires
                        rate > 0,
                ;
            }
            let num: u32 = (pos % rate as u128) as u32;
            let whole: u128 = pos / rate as u128;
            let a: S = if whole == 0 || whole > length as u128 {
                self.last
            } else {
                src[(whole - 1) as usize]
            };
            let b: S = if whole < length as u128 {
                src[whole as usize]
            } else {
                self.last
            };
            let value: S = lerp(a, b, num, rate);
            assert(plays(
                src@,
                old(self).advance(f as int),
                rate,
                old(self).spec_last(),
                *lerp,
                value,
            ));
            assert(f * channels + channels <= frames * channels) by (nonlinear_arith)
                requires
                    f < frames,
            ;
            let base: usize = f * channels;
            for c in 0..channels
                invariant
                    base == f * channels,
                    base + channels <= total,
                    total == dst@.len(),
                    dst@.len() == old(dst)@.len(),
                    mono.len() == f,
                    forall|g: int, d: int|
                        0 <= g < f && 0 <= d < channels ==> #[trigger] dst@[g * channels + d]
                            == mono[g],
                    forall|d: int| base <= d < base + c ==> dst@[d] == value,
            {
                let ghost before = dst@;
                dst[base + c] = value;
                assert forall|g: int, d: int|
                    0 <= g < f && 0 <= d < channels implies #[trigger] dst@[g * channels + d]
                    == mono[g] by {
                    assert(g * channels + d < f * channels) by (nonlinear_arith)
                        requires
                            g < f,
                            d < channels,
                            g >= 0,
                    ;
                    assert(0 <= g * channels) by (nonlinear_arith)
                        requires
                            g >= 0,
                    ;
                    assert(before[g * channels + d] == mono[g]);
                }
            }
            proof {
                let grown = mono.push(value);
                assert forall|g: int, c: int|
                    0 <= g < f + 1 && 0 <= c < channels implies #[trigger] dst@[g * channels + c]
                    == grown[g] by {
                    if g < f {
                        assert(dst@[g * channels + c] == mono[g]);
                    } else {
                        assert(dst@[base + c] == value);
                    }
                }
                assert forall|g: int| 0 <= g < f + 1 implies plays(
                    src@,
                    old(self).advance(g),
                    rate,
                    old(self).spec_last(),
                    *lerp,
                    #[trigger] grown[g],
                ) by {
                    if g < f {
                        assert(grown[g] == mono[g]);
                    }
                }
                mono = grown;
                let step = self.src_rate;
                assert((f + 1) * step == f * step + step) by (nonlinear_arith);
            }
            pos = pos + self.src_rate as u128;
        }
        proof {
            lemma_spreads(mono, channels as int, dst@);
        }
        proof {
            vstd::arithmetic::div_mod::lemma_fundamental_div_mod(pos as int, rate as int);
        }
        let passed: u128 = pos / rate as u128;
        self.phase = (pos % rate as u128) as u32;
        if passed == 0 {
            return 0;
        }
        if passed <= length as u128 {
            let consumed: usize = passed as usize;
            self.last = src[consumed - 1];
            consumed
        } else {
            self.last = src[length - 1];
            length
        }
    }
}

/// Moving `frames` frames on from a fraction of a sample passes at most the
/// samples that [`samples_needed`] counts, and at most one fewer.
proof fn lemma_passed_is_what_was_needed(phase: int, frames: int, rate: int)
    requires
        rate > 0,
        0 <= phase < rate,
        frames >= 0,
    ensures
        samples_needed(frames, rate) - 1 <= (phase + frames * SAMPLE_RATE) / rate
            <= samples_needed(frames, rate),
        (phase + frames * SAMPLE_RATE) / rate >= 0,
{
    let wanted = frames * SAMPLE_RATE;
    let needed = samples_needed(frames, rate);
    let passed = (phase + wanted) / rate;
    vstd::arithmetic::div_mod::lemma_fundamental_div_mod(wanted + rate - 1, rate);
    vstd::arithmetic::div_mod::lemma_fundamental_div_mod(phase + wanted, rate);
    let r1 = (wanted + rate - 1) % rate;
    let r2 = (phase + wanted) % rate;
    assert(passed <= needed) by (nonlinear_arith)
        requires
            rate > 0,
            wanted + rate - 1 == rate * needed + r1,
            phase + wanted == rate * passed + r2,
            0 <= r1 < rate,
            0 <= r2 < rate,
            phase < rate,
    ;
    assert(needed - 1 <= passed) by (nonlinear_arith)
        requires
            rate > 0,
            wanted + rate - 1 == rate * needed + r1,
            phase + wanted == rate * passed + r2,
            0 <= r1 < rate,
            0 <= r2 < rate,
            phase >= 0,
    ;
    assert(passed >= 0) by (nonlinear_arith)
        requires
            rate > 0,
            phase + wanted == rate * passed + r2,
            0 <= r2 < rate,
            phase >= 0,
            wanted >= 0,
    ;
}

/// How many source samples a run of buffers of the given sizes uses up, when
/// each starts at the fraction of a sample the one before it ended at.
pub open spec fn used_up(phase: int, src_rate: int, dst_rate: int, sizes: Seq<nat>) -> int
    decreases sizes.len(),
{
    if sizes.len() == 0 {
        0
    } else {
        let moved = phase + sizes[0] * src_rate;
        moved / dst_rate + used_up(moved % dst_rate, src_rate, dst_rate, sizes.drop_first())
    }
}

proof fn lemma_used_up(phase: int, src_rate: int, dst_rate: int, sizes: Seq<nat>)
    requires
        dst_rate > 0,
        src_rate >= 0,
        0 <= phase < dst_rate,
    ensures
        used_up(phase, src_rate, dst_rate, sizes) == (phase + crate::resample::total(sizes)
            * src_rate) / dst_rate,
        crate::resample::total(sizes) >= 0,
    decreases sizes.len(),
{
    if sizes.len() == 0 {
        assert(0 * src_rate == 0);
        assert(phase / dst_rate == 0) by (nonlinear_arith)
            requires
                0 <= phase < dst_rate,
        ;
    } else {
        let rest = crate::resample::total(sizes.drop_first());
        let moved = phase + sizes[0] * src_rate;
        vstd::arithmetic::div_mod::lemma_fundamental_div_mod(moved, dst_rate);
        lemma_used_up(moved % dst_rate, src_rate, dst_rate, sizes.drop_first());
        let q = moved / dst_rate;
        let r = moved % dst_rate + rest * src_rate;
        assert((sizes[0] + rest) * src_rate == sizes[0] * src_rate + rest * src_rate)
            by (nonlinear_arith);
        assert(phase + crate::resample::total(sizes) * src_rate == r + q * dst_rate)
            by (nonlinear_arith)
            requires
                phase + crate::resample::total(sizes) * src_rate == moved + rest * src_rate,
                moved == dst_rate * q + moved % dst_rate,
                r == moved % dst_rate + rest * src_rate,
        ;
        crate::resample::lemma_whole_samples(r, dst_rate, q);
    }
}

/// Playing a buffer of `size` frames takes a converter from `before` to `after`
/// and uses up `used` source samples.
pub open spec fn plays_buffer<S: Copy>(
    before: UpConverter<S>,
    after: UpConverter<S>,
    size: nat,
    used: nat,
) -> bool {
    &&& after.same_setup(&before)
    &&& used == before.passed(size as int)
    &&& after.spec_phase() == before.advance(size as int) % (before.spec_dst_rate() as int)
}

/// A converter played buffers of `sizes` frames one after another: `states[i]`
/// is the converter before the `i`-th, which used up `used[i]` source samples.
pub open spec fn plays_on<S: Copy>(
    states: Seq<UpConverter<S>>,
    sizes: Seq<nat>,
    used: Seq<nat>,
) -> bool {
    &&& states.len() == sizes.len() + 1
    &&& used.len() == sizes.len()
    &&& states[0].wf()
    &&& forall|i: int|
        0 <= i < used.len() ==> plays_buffer(
            states[i],
            states[i + 1],
            sizes[i],
            #[trigger] used[i],
        )
}

proof fn lemma_plays_on<S: Copy>(states: Seq<UpConverter<S>>, sizes: Seq<nat>, used: Seq<nat>)
    requires
        plays_on(states, sizes, used),
    ensures
        crate::resample::total(used) == used_up(
            states[0].spec_phase(),
            states[0].spec_src_rate() as int,
            states[0].spec_dst_rate() as int,
            sizes,
        ),
    decreases sizes.len(),
{
    if sizes.len() > 0 {
        let rest = states.drop_first();
        let rest_sizes = sizes.drop_first();
        let rest_used = used.drop_first();
        assert(used[0] == states[0].passed(sizes[0] as int));
        vstd::arithmetic::div_mod::lemma_fundamental_div_mod(
            states[0].advance(sizes[0] as int),
            states[0].spec_dst_rate() as int,
        );
        assert(rest[0] == states[1]);
        assert forall|i: int| 0 <= i < rest_used.len() implies plays_buffer(
            rest[i],
            rest[i + 1],
            rest_sizes[i],
            #[trigger] rest_used[i],
        ) by {
            assert(rest_used[i] == used[i + 1]);
        }
        lemma_plays_on(rest, rest_sizes, rest_used);
    }
}

/// Rendering does not drift: from the start of a stream, however it is cut
/// into buffers, the source samples that are used up are the frames played,
/// times the rate ratio, rounded down once.
pub proof fn law_rendering_does_not_drift<S: Copy>(
    states: Seq<UpConverter<S>>,
    sizes: Seq<nat>,
    used: Seq<nat>,
)
    requires
        plays_on(states, sizes, used),
        states[0].spec_phase() == 0,
    ensures
        crate::resample::total(used) == crate::resample::total(sizes) * states[0].spec_src_rate()
            / (states[0].spec_dst_rate() as int),
{
    lemma_plays_on(states, sizes, used);
    lemma_used_up(
        0,
        states[0].spec_src_rate() as int,
        states[0].spec_dst_rate() as int,
        sizes,
    );
}

/// Buffers join without a seam: a frame of the second buffer, read from the
/// source that the first one left, is what it would have been in one buffer,
/// as long as the source reaches that far.
pub proof fn law_buffers_join_without_a_seam<S: Copy, L: Fn(S, S, u32, u32) -> S>(
    before: UpConverter<S>,
    after: UpConverter<S>,
    src: Seq<S>,
    first: nat,
    used: nat,
    frame: int,
    lerp: L,
    value: S,
)
    requires
        before.wf(),
        plays_buffer(before, after, first, used),
        used <= src.len(),
        after.spec_last() == (if used == 0 {
            before.spec_last()
        } else {
            src[used - 1]
        }),
        frame >= 0,
        before.passed(first + frame) < src.len(),
    ensures
        plays(
            src.skip(used as int),
            after.advance(frame),
            after.spec_dst_rate(),
            after.spec_last(),
            lerp,
            value,
        ) == plays(
            src,
            before.advance(first + frame),
            before.spec_dst_rate(),
            before.spec_last(),
            lerp,
            value,
        ),
{
    let rate = before.spec_dst_rate() as int;
    let step = before.spec_src_rate();
    let there = before.advance(first as int);
    let pos = after.advance(frame);
    vstd::arithmetic::div_mod::lemma_fundamental_div_mod(there, rate);
    assert(before.advance(first + frame) == pos + used * rate) by (nonlinear_arith)
        requires
            before.advance(first + frame) == before.spec_phase() + (first + frame) * step,
            there == before.spec_phase() + first * step,
            there == rate * used + after.spec_phase(),
            pos == after.spec_phase() + frame * step,
    ;
    assert(0 <= frame * step) by (nonlinear_arith)
        requires
            frame >= 0,
    ;
    crate::resample::lemma_whole_samples(pos, rate, used as int);
    vstd::arithmetic::div_mod::lemma_div_pos_is_pos(pos, rate);
    let rest = src.skip(used as int);
    let idx = pos / rate;
    assert(rest[idx] == src[used + idx]);
    if idx > 0 {
        assert(rest[idx - 1] == src[used + idx - 1]);
    }
}

/// A constant signal keeps its level, whatever the rates: where `lerp` between
/// two equal samples gives that sample, every frame of a constant `x` that
/// follows `x` plays `x`.
pub proof fn law_a_constant_signal_keeps_its_level<S, L: Fn(S, S, u32, u32) -> S>(
    src: Seq<S>,
    pos: int,
    rate: u32,
    lerp: L,
    x: S,
    value: S,
)
    requires
        rate > 0,
        pos >= 0,
        forall|i: int| 0 <= i < src.len() ==> src[i] == x,
        forall|n: u32, d: u32, v: S| call_ensures(lerp, (x, x, n, d), v) ==> v == x,
        plays(src, pos, rate, x, lerp, value),
    ensures
        value == x,
{
    vstd::arithmetic::div_mod::lemma_div_pos_is_pos(pos, rate as int);
}

/// How many frames the engine can take: what its buffer holds less what is
/// still waiting to be played.
pub fn writable_frames(buffer_frames: u32, padding: u32) -> (r: u32)
    ensures
        r == (if buffer_frames >= padding {
            buffer_frames - padding
        } else {
            0
        }),
{
    if buffer_frames >= padding {
        buffer_frames - padding
    } else {
        0
    }
}

/// How long the pump waits for the engine before it looks at the stop flag.
pub const WAIT_TIMEOUT_MS: u32 = 200;

/// What happened since the pump last asked for something.
pub enum RenderEvent<S> {
    /// The stop flag was read.
    StopFlag(bool),
    /// Waiting for the engine ended.
    Waited { signalled: bool },
    /// The engine can take this many frames right now.
    Writable(u32),
    /// The source was asked for a frame; it may have had none.
    Pulled(Option<Frame<S>>),
    /// The engine's buffer was filled and given back.
    Filled,
    /// The engine failed.
    Failed(AudioError),
}

/// What the pump asks for next.
pub enum RenderAction {
    /// Read the stop flag.
    ReadStopFlag,
    /// Wait for the engine to signal.
    Wait { timeout_ms: u32 },
    /// Ask the engine how many frames it can take.
    AskWritable,
    /// Ask the source for a frame.
    PullFrame,
    /// Fill an engine buffer of this many frames.
    FillBuffer { frames: u32 },
    /// End the stream with this result.
    Finish(Result<(), AudioError>),
}

/// Feeds the engine from a source of frames until it is asked to stop.
///
/// The pump decides; the audio thread around it waits, asks the engine and the
/// source, and hands the engine's buffers to [`RenderPump::fill`].
pub struct RenderPump<S> {
    converter: UpConverter<S>,
    zero: S,
    pending: Vec<S>,
    writable: u32,
}

/// Filling the engine's buffer with `out` took the pump from `before` to `after`
/// and used up `consumed` of what was pending.
pub open spec fn fills<S: Copy, L: Fn(S, S, u32, u32) -> S>(
    before: RenderPump<S>,
    after: RenderPump<S>,
    lerp: L,
    out: Seq<S>,
    consumed: int,
) -> bool {
    &&& consumed == before.spec_converter().passed(before.spec_writable() as int)
    &&& 0 <= consumed <= before.pending().len()
    &&& after.pending() == before.pending().skip(consumed)
    &&& writes(
        before.spec_converter(),
        after.spec_converter(),
        before.pending().take(before.needed()),
        before.spec_writable() as int,
        lerp,
        out,
        consumed,
    )
}

/// What is pending after the source was asked for a frame: what was, and behind
/// it the frame, or a frame of silence where the source had none.
pub open spec fn after_pull<S>(pending: Seq<S>, pulled: Option<Frame<S>>, zero: S) -> Seq<S> {
    match pulled {
        Some(frame) => pending + frame@,
        None => pending + Seq::new(FRAME_SAMPLES as nat, |i: int| zero),
    }
}

impl<S: Copy> RenderPump<S> {
    pub closed spec fn spec_converter(&self) -> UpConverter<S> {
        self.converter
    }

    pub closed spec fn spec_zero(&self) -> S {
        self.zero
    }

    /// The mono samples pulled from the source and not yet played.
    pub closed spec fn pending(&self) -> Seq<S> {
        self.pending@
    }

    /// How many frames the engine can take.
    pub closed spec fn spec_writable(&self) -> u32 {
        self.writable
    }

    /// How many pending samples the engine's buffer calls for.
    pub open spec fn needed(&self) -> int {
        samples_needed(self.spec_writable() as int, self.spec_converter().spec_dst_rate() as int)
    }

    pub open spec fn wf(&self) -> bool {
        &&& self.spec_converter().wf()
        &&& self.spec_converter().spec_src_rate() == SAMPLE_RATE
    }

    /// Between two buffers never more than one frame is pending: the queue
    /// neither grows nor lags behind.
    pub open spec fn at_rest(&self) -> bool {
        self.pending().len() <= FRAME_SAMPLES
    }

    /// While a buffer is being gathered, what is pending was either there
    /// before or is at most one frame more than is called for.
    pub open spec fn gathering(&self) -> bool {
        ||| self.pending().len() <= FRAME_SAMPLES
        ||| self.pending().len() < self.needed() + FRAME_SAMPLES
    }

    /// The device's part of the pump is as in `other`.
    pub open spec fn same_device(&self, other: &Self) -> bool {
        &&& self.spec_converter() == other.spec_converter()
        &&& self.spec_zero() == other.spec_zero()
    }

    /// A pump at the start of a stream with nothing pending.
    pub fn new(device_rate: u32, device_channels: usize, zero: S) -> (r: Self)
        requires
            device_rate > 0,
        ensures
            r.wf(),
            r.at_rest(),
            r.pending() == Seq::<S>::empty(),
            r.spec_writable() == 0,
            r.spec_zero() == zero,
            r.spec_converter().spec_dst_rate() == device_rate,
            r.spec_converter().spec_channels() == device_channels,
            r.spec_converter().spec_zero() == zero,
            r.spec_converter().spec_last() == zero,
            r.spec_converter().spec_phase() == 0,
    {
        RenderPump {
            converter: UpConverter::new(SAMPLE_RATE, device_rate, device_channels, zero),
            zero,
            pending: Vec::with_capacity(2 * FRAME_SAMPLES),
            writable: 0,
        }
    }

    /// Whether more source audio has to be pulled before the engine's buffer
    /// can be filled, and what to do next.
    fn gather(&self) -> (r: RenderAction)
        requires
            self.wf(),
        ensures
            r == (if self.pending().len() < self.needed() {
                RenderAction::PullFrame
            } else {
                RenderAction::FillBuffer { frames: self.spec_writable() }
            }),
    {
        let needed: u64 = count_samples_needed(self.writable, self.converter.dst_rate);
        if (self.pending.len() as u64) < needed {
            RenderAction::PullFrame
        } else {
            RenderAction::FillBuffer { frames: self.writable }
        }
    }

    /// Take in what happened. Returns what to do next and whether the source
    /// ran dry, in which case one frame of silence is played in its place.
    pub fn step(&mut self, event: RenderEvent<S>) -> (r: (RenderAction, bool))
        requires
            old(self).wf(),
            event is Pulled ==> old(self).pending().len() < old(self).needed(),
        ensures
            final(self).wf(),
            final(self).same_device(old(self)),
            r.0 == (match event {
                RenderEvent::StopFlag(true) => RenderAction::Finish(Ok(())),
                RenderEvent::StopFlag(false) => RenderAction::Wait { timeout_ms: WAIT_TIMEOUT_MS },
                RenderEvent::Waited { signalled } => if signalled {
                    RenderAction::AskWritable
                } else {
                    RenderAction::ReadStopFlag
                },
                RenderEvent::Writable(0) => RenderAction::ReadStopFlag,
                RenderEvent::Filled => RenderAction::ReadStopFlag,
                RenderEvent::Failed(error) => RenderAction::Finish(Err(error)),
                _ => if final(self).pending().len() < final(self).needed() {
                    RenderAction::PullFrame
                } else {
                    RenderAction::FillBuffer { frames: final(self).spec_writable() }
                },
            }),
            final(self).spec_writable() == (match event {
                RenderEvent::Writable(frames) => frames,
                _ => old(self).spec_writable(),
            }),
            final(self).pending() == (match event {
                RenderEvent::Pulled(pulled) => after_pull(
                    old(self).pending(),
                    pulled,
                    old(self).spec_zero(),
                ),
                _ => old(self).pending(),
            }),
            r.1 == (event matches RenderEvent::Pulled(None)),
            event is Pulled && old(self).gathering() ==> final(self).gathering(),
            event is Writable && old(self).at_rest() ==> final(self).gathering(),
    {
        match event {
            RenderEvent::StopFlag(stop) => {
                if stop {
                    (RenderAction::Finish(Ok(())), false)
                } else {
                    (RenderAction::Wait { timeout_ms: WAIT_TIMEOUT_MS }, false)
                }
            },
            RenderEvent::Waited { signalled } => {
                if signalled {
                    (RenderAction::AskWritable, false)
                } else {
                    (RenderAction::ReadStopFlag, false)
                }
            },
            RenderEvent::Writable(frames) => {
                self.writable = frames;
                if frames == 0 {
                    (RenderAction::ReadStopFlag, false)
                } else {
                    (self.gather(), false)
                }
            },
            RenderEvent::Pulled(Some(frame)) => {
                for i in 0..FRAME_SAMPLES
                    invariant
                        self.converter == old(self).converter,
                        self.zero == old(self).zero,
                        self.writable == old(self).writable,
                        self.pending@ == old(self).pending@ + frame@.take(i as int),
                        frame@.len() == FRAME_SAMPLES,
                {
                    self.pending.push(frame[i]);
                    assert(frame@.take(i + 1) =~= frame@.take(i as int).push(frame@[i as int]));
                    assert(self.pending@ =~= old(self).pending@ + frame@.take(i + 1));
                }
                assert(frame@.take(FRAME_SAMPLES as int) =~= frame@);
                (self.gather(), false)
            },
            RenderEvent::Pulled(None) => {
                let mut quiet = crate::capture::silence(self.zero, FRAME_SAMPLES);
                self.pending.append(&mut quiet);
                (self.gather(), true)
            },
            RenderEvent::Filled => (RenderAction::ReadStopFlag, false),
            RenderEvent::Failed(error) => (RenderAction::Finish(Err(error)), false),
        }
    }

    /// Fill the engine's buffer `dst` with everything it asked for, and drop
    /// the source samples that were used up.
    pub fn fill<L: Fn(S, S, u32, u32) -> S>(&mut self, dst: &mut [S], lerp: &L) -> (consumed: usize)
        requires
            old(self).wf(),
            old(self).spec_writable() > 0,
            old(self).pending().len() >= old(self).needed(),
            old(dst)@.len() == old(self).spec_writable() * old(
                self,
            ).spec_converter().spec_channels(),
            forall|a: S, b: S, n: u32, d: u32| n < d ==> call_requires(*lerp, (a, b, n, d)),
        ensures
            final(self).wf(),
            final(self).spec_zero() == old(self).spec_zero(),
            final(self).spec_writable() == old(self).spec_writable(),
            fills(*old(self), *final(self), *lerp, final(dst)@, consumed as int),
            old(self).gathering() ==> final(self).at_rest(),
    {
        let needed: u64 = count_samples_needed(self.writable, self.converter.dst_rate);
        proof {
            lemma_passed_is_what_was_needed(
                self.converter.spec_phase(),
                self.writable as int,
                self.converter.dst_rate as int,
            );
            let wanted = self.writable * SAMPLE_RATE;
            let rate = self.converter.dst_rate as int;
            assert(crate::resample::ceil_div(wanted, rate) >= 1) by (nonlinear_arith)
                requires
                    crate::resample::ceil_div(wanted, rate) == (wanted + rate - 1) / rate,
                    wanted >= 1,
                    rate >= 1,
            ;
        }
        let length: usize = self.pending.len();
        assert(needed <= length);
        let available: usize = needed as usize;
        let consumed: usize = self.converter.write_into(
            slice_subrange(self.pending.as_slice(), 0, available),
            dst,
            self.writable as usize,
            lerp,
        );
        assert(old(self).pending().take(old(self).needed()) =~= old(self).pending@.subrange(
            0,
            available as int,
        ));
        let rest = self.pending.split_off(consumed);
        self.pending = rest;
        assert(self.pending@ =~= old(self).pending@.skip(consumed as int));
        consumed
    }
}

/// Every frame plays the signal at its place: from the read position on, one
/// device period apart, each of its channels is what the samples around it are
/// worth by how near they are, and no other sample counts.
pub proof fn law_every_frame_plays_the_signal_at_its_place<
    S: Copy,
    L: Fn(S, S, u32, u32) -> S,
>(
    before: UpConverter<S>,
    after: UpConverter<S>,
    src: Seq<S>,
    frames: int,
    lerp: L,
    out: Seq<S>,
    consumed: int,
    worth: spec_fn(S) -> int,
    fine: spec_fn(S) -> int,
)
    requires
        before.wf(),
        crate::capture::exact_lerp(lerp, before.spec_dst_rate(), worth, fine),
        writes(before, after, src, frames, lerp, out, consumed),
    ensures
        out.len() == frames * before.spec_channels(),
        forall|f: int, c: int|
            0 <= f < frames && 0 <= c < before.spec_channels() && before.spec_phase() + f
                * before.spec_src_rate() < src.len() * before.spec_dst_rate() ==> fine(
                #[trigger] out[f * before.spec_channels() + c],
            ) == crate::resample::between_samples(
                worth(before.spec_last()),
                src.map_values(worth),
                before.spec_phase() + f * before.spec_src_rate(),
                before.spec_dst_rate() as int,
            ),
{
    let channels = before.spec_channels() as int;
    let rate = before.spec_dst_rate();
    let step = before.spec_src_rate();
    let mono = choose|mono: Seq<S>|
        {
            &&& mono.len() == frames
            &&& forall|f: int|
                0 <= f < frames ==> plays(
                    src,
                    before.advance(f),
                    rate,
                    before.spec_last(),
                    lerp,
                    #[trigger] mono[f],
                )
            &&& #[trigger] spreads(mono, channels, out)
        };
    assert forall|f: int, c: int|
        0 <= f < frames && 0 <= c < channels && before.spec_phase() + f * step < src.len()
            * rate implies fine(#[trigger] out[f * channels + c])
        == crate::resample::between_samples(
        worth(before.spec_last()),
        src.map_values(worth),
        before.spec_phase() + f * step,
        rate as int,
    ) by {
        lemma_channel_of_a_frame(mono, channels, out, f, c);
        let pos = before.spec_phase() + f * step;
        assert(0 <= f * step) by (nonlinear_arith)
            requires
                f >= 0,
        ;
        crate::resample::lemma_two_samples_count(
            worth(before.spec_last()),
            src.map_values(worth),
            pos,
            rate as int,
        );
        assert(plays(src, pos, rate, before.spec_last(), lerp, mono[f]));
    }
}

/// Channel `c` of frame `f`.
proof fn lemma_channel_of_a_frame<S>(mono: Seq<S>, channels: int, out: Seq<S>, f: int, c: int)
    requires
        spreads(mono, channels, out),
        0 <= f < mono.len(),
        0 <= c < channels,
    ensures
        0 <= f * channels + c < out.len(),
        out[f * channels + c] == mono[f],
{
    let i = f * channels + c;
    assert(0 <= i < mono.len() * channels) by (nonlinear_arith)
        requires
            i == f * channels + c,
            0 <= f,
            f + 1 <= mono.len(),
            0 <= c < channels,
    ;
    vstd::arithmetic::div_mod::lemma_fundamental_div_mod_converse(i, channels, f, c);
}

/// A signal that rises evenly is played rising evenly: each frame is worth
/// exactly its distance from the sample before the source, so every step from
/// one frame to the next is the same.
pub proof fn law_a_ramp_is_played_as_a_ramp<S: Copy, L: Fn(S, S, u32, u32) -> S>(
    before: UpConverter<S>,
    after: UpConverter<S>,
    src: Seq<S>,
    frames: int,
    lerp: L,
    out: Seq<S>,
    consumed: int,
    worth: spec_fn(S) -> int,
    fine: spec_fn(S) -> int,
    slope: int,
)
    requires
        before.wf(),
        crate::capture::exact_lerp(lerp, before.spec_dst_rate(), worth, fine),
        writes(before, after, src, frames, lerp, out, consumed),
        forall|i: int|
            0 <= i < src.len() ==> worth(#[trigger] src[i]) == worth(before.spec_last()) + slope * (
            i + 1),
    ensures
        forall|f: int, c: int|
            0 <= f < frames && 0 <= c < before.spec_channels() && before.spec_phase() + f
                * before.spec_src_rate() < src.len() * before.spec_dst_rate() ==> fine(
                #[trigger] out[f * before.spec_channels() + c],
            ) == worth(before.spec_last()) * before.spec_dst_rate() + slope * (before.spec_phase()
                + f * before.spec_src_rate()),
{
    let channels = before.spec_channels() as int;
    let rate = before.spec_dst_rate() as int;
    let step = before.spec_src_rate();
    law_every_frame_plays_the_signal_at_its_place(
        before,
        after,
        src,
        frames,
        lerp,
        out,
        consumed,
        worth,
        fine,
    );
    assert forall|f: int, c: int|
        0 <= f < frames && 0 <= c < channels && before.spec_phase() + f * step < src.len()
            * rate implies fine(#[trigger] out[f * channels + c]) == worth(before.spec_last())
        * rate + slope * (before.spec_phase() + f * step) by {
        let pos = before.spec_phase() + f * step;
        let xs = src.map_values(worth);
        assert(0 <= f * step) by (nonlinear_arith)
            requires
                f >= 0,
        ;
        crate::resample::lemma_two_samples_count(worth(before.spec_last()), xs, pos, rate);
        vstd::arithmetic::div_mod::lemma_fundamental_div_mod(pos, rate);
        let idx = pos / rate;
        let num = pos % rate;
        let k = worth(before.spec_last());
        let a = if idx == 0 {
            k
        } else {
            xs[idx - 1]
        };
        assert(slope * 0 == 0);
        assert(a == k + slope * idx);
        assert(xs[idx] == k + slope * (idx + 1));
        assert(a * (rate - num) + xs[idx] * num == k * rate + slope * pos) by (nonlinear_arith)
            requires
                a == k + slope * idx,
                xs[idx] == k + slope * (idx + 1),
                pos == rate * idx + num,
        ;
    }
}

/// A source that runs short plays as if it went on with the last sample that
/// was passed before it.
pub proof fn law_a_short_source_goes_on_as_before<S, L: Fn(S, S, u32, u32) -> S>(
    src: Seq<S>,
    more: nat,
    pos: int,
    rate: u32,
    last: S,
    lerp: L,
    value: S,
)
    requires
        rate > 0,
        pos >= 0,
    ensures
        plays(src, pos, rate, last, lerp, value) == plays(
            src + Seq::new(more, |i: int| last),
            pos,
            rate,
            last,
            lerp,
            value,
        ),
{
    vstd::arithmetic::div_mod::lemma_div_pos_is_pos(pos, rate as int);
}

/// The number of samples called for is the least that lasts for the frames: as
/// much time as they take, and not a whole sample more.
pub proof fn law_the_least_that_lasts_is_called_for(frames: int, device_rate: int)
    requires
        frames >= 0,
        device_rate > 0,
    ensures
        samples_needed(frames, device_rate) >= 0,
        samples_needed(frames, device_rate) * device_rate >= frames * 48_000,
        (samples_needed(frames, device_rate) - 1) * device_rate < frames * 48_000,
{
    let wanted = frames * 48_000;
    let q = (wanted + device_rate - 1) / device_rate;
    vstd::arithmetic::div_mod::lemma_fundamental_div_mod(wanted + device_rate - 1, device_rate);
    let r = (wanted + device_rate - 1) % device_rate;
    assert(q >= 0 && q * device_rate >= wanted && (q - 1) * device_rate < wanted)
        by (nonlinear_arith)
        requires
            wanted + device_rate - 1 == device_rate * q + r,
            0 <= r < device_rate,
            wanted >= 0,
    ;
}

/// What the source gives is played first in, first out: what was pending stays
/// where it is, and the frame follows behind it, sample for sample; where there
/// was none, a frame of silence does.
pub proof fn law_what_is_pulled_waits_its_turn<S>(
    pending: Seq<S>,
    pulled: Option<Frame<S>>,
    zero: S,
)
    ensures
        after_pull(pending, pulled, zero).len() == pending.len() + 480,
        forall|i: int|
            0 <= i < pending.len() ==> #[trigger] after_pull(pending, pulled, zero)[i]
                == pending[i],
        forall|i: int|
            pending.len() <= i < pending.len() + 480 ==> #[trigger] after_pull(
                pending,
                pulled,
                zero,
            )[i] == (match pulled {
                Some(frame) => frame@[i - pending.len()],
                None => zero,
            }),
{
}

/// What the pump is for, end to end: every frame of the engine's buffer is what
/// is pending, played from where the buffer before it ended, at the device's
/// own pace, the same on every channel. What was moved past is dropped from the
/// front, and nothing else is.
pub proof fn law_the_engine_gets_what_is_pending<S: Copy, L: Fn(S, S, u32, u32) -> S>(
    before: RenderPump<S>,
    after: RenderPump<S>,
    lerp: L,
    out: Seq<S>,
    consumed: int,
    worth: spec_fn(S) -> int,
    fine: spec_fn(S) -> int,
)
    requires
        before.wf(),
        before.pending().len() >= before.needed(),
        crate::capture::exact_lerp(lerp, before.spec_converter().spec_dst_rate(), worth, fine),
        fills(before, after, lerp, out, consumed),
    ensures
        out.len() == before.spec_writable() * before.spec_converter().spec_channels(),
        forall|f: int, c: int|
            0 <= f < before.spec_writable() && 0 <= c < before.spec_converter().spec_channels()
                && before.spec_converter().spec_phase() + f * 48_000 < before.needed()
                * before.spec_converter().spec_dst_rate() ==> fine(
                #[trigger] out[f * before.spec_converter().spec_channels() + c],
            ) == crate::resample::between_samples(
                worth(before.spec_converter().spec_last()),
                before.pending().map_values(worth),
                before.spec_converter().spec_phase() + f * 48_000,
                before.spec_converter().spec_dst_rate() as int,
            ),
        consumed * before.spec_converter().spec_dst_rate() + after.spec_converter().spec_phase()
            == before.spec_converter().spec_phase() + before.spec_writable() * 48_000,
        after.pending().len() == before.pending().len() - consumed,
        forall|i: int|
            0 <= i < after.pending().len() ==> #[trigger] after.pending()[i]
                == before.pending()[consumed + i],
        after.spec_converter().spec_last() == (if consumed == 0 {
            before.spec_converter().spec_last()
        } else {
            before.pending()[consumed - 1]
        }),
{
    let conv = before.spec_converter();
    let rate = conv.spec_dst_rate() as int;
    let channels = conv.spec_channels() as int;
    let n = before.needed();
    let w = before.spec_writable() as int;
    law_the_least_that_lasts_is_called_for(w, rate);
    let src = before.pending().take(n);
    law_every_frame_plays_the_signal_at_its_place(
        conv,
        after.spec_converter(),
        src,
        w,
        lerp,
        out,
        consumed,
        worth,
        fine,
    );
    lemma_passed_is_what_was_needed(conv.spec_phase(), w, rate);
    vstd::arithmetic::div_mod::lemma_fundamental_div_mod(conv.advance(w), rate);
    assert(consumed * rate == rate * consumed) by (nonlinear_arith);
    assert forall|f: int, c: int|
        0 <= f < w && 0 <= c < channels && conv.spec_phase() + f * 48_000 < n * rate implies fine(
        #[trigger] out[f * channels + c],
    ) == crate::resample::between_samples(
        worth(conv.spec_last()),
        before.pending().map_values(worth),
        conv.spec_phase() + f * 48_000,
        rate,
    ) by {
        let pos = conv.spec_phase() + f * 48_000;
        let few = src.map_values(worth);
        let all = before.pending().map_values(worth);
        assert(n * rate <= all.len() * rate) by (nonlinear_arith)
            requires
                n <= all.len(),
                rate > 0,
        ;
        crate::resample::lemma_two_samples_count(worth(conv.spec_last()), few, pos, rate);
        crate::resample::lemma_two_samples_count(worth(conv.spec_last()), all, pos, rate);
        let idx = pos / rate;
        assert(few[idx] == all[idx]);
        assert(idx > 0 ==> few[idx - 1] == all[idx - 1]);
    }
}

} // verus!
