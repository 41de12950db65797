//! The offline tools: run a recording through a denoiser, and measure what it
//! did.
use vstd::prelude::*;
use vstd::slice::slice_subrange;
use vstd::string::StringExecFns;

use crate::denoiser::Denoiser;
use crate::error::DspError;
use crate::pipeline::quote;
use crate::text::push_decimal;
use crate::{Frame, FRAME_SAMPLES, SAMPLE_RATE};

verus! {

/// Why a recording of another format is refused. `path` is what it is called.
pub open spec fn wrong_format(path: Seq<char>, channels: u16, sample_rate: u32) -> Seq<char> {
    path + " is "@ + crate::text::decimal(channels as nat) + " ch @ "@ + crate::text::decimal(
        sample_rate as nat,
    ) + " Hz; this tool wants mono 48 kHz (what `--record` produces)"@
}

/// Refuse a recording that is not mono at 48 kHz.
pub fn check_wav(path: &str, channels: u16, sample_rate: u32) -> (r: Result<(), String>)
    ensures
        r is Ok <==> channels == 1 && sample_rate == SAMPLE_RATE,
        r matches Err(why) ==> why@ == wrong_format(path@, channels, sample_rate),
{
    if channels == 1 && sample_rate == SAMPLE_RATE {
        return Ok(());
    }
    let mut why = path.to_owned();
    why.append(" is ");
    push_decimal(&mut why, channels as u64);
    why.append(" ch @ ");
    push_decimal(&mut why, sample_rate as u64);
    why.append(" Hz; this tool wants mono 48 kHz (what `--record` produces)");
    Err(why)
}

/// What the samples of an integer recording are divided by: half of the numbers
/// that fit in its width, so that they land where those of a recording in
/// floating point do.
pub fn full_scale(bits_per_sample: u16) -> (r: u32)
    requires
        1 <= bits_per_sample <= 32,
    ensures
        r == vstd::arithmetic::power2::pow2((bits_per_sample - 1) as nat),
{
    let shift: u32 = bits_per_sample as u32 - 1;
    proof {
        if shift < 31 {
            vstd::arithmetic::power2::lemma_pow2_strictly_increases(shift as nat, 31);
        }
        vstd::arithmetic::power2::lemma2_to64();
        vstd::bits::lemma_u32_shl_is_mul(1, shift);
    }
    1u32 << shift
}

/// Refuse a recording that nothing arrived for.
pub fn check_captured(samples: usize) -> (r: Result<(), &'static str>)
    ensures
        r is Ok <==> samples > 0,
        r matches Err(why) ==> why@ == CAPTURED_NOTHING@,
{
    if samples > 0 {
        Ok(())
    } else {
        Err(CAPTURED_NOTHING)
    }
}

/// What is said when no microphone goes by the name asked for. `shown` is the
/// name in quotes.
pub fn no_microphone_text(shown: &str) -> (r: String)
    ensures
        r@ == "no microphone matching "@ + shown@,
{
    "no microphone matching ".to_owned().concat(shown)
}

/// What is said when no microphone goes by the name asked for.
pub fn no_microphone(name: &str) -> (r: String)
    ensures
        r@ == "no microphone matching "@ + crate::pipeline::quoted(name@),
{
    no_microphone_text(quote(name).as_str())
}

/// What is said when nothing was recorded.
pub const CAPTURED_NOTHING: &'static str = "captured nothing. Check Settings → Privacy & Security → Microphone, and that the mic isn't hardware-muted";

/// The `k`-th stretch of 480 samples; the last one may be shorter.
pub open spec fn stretch<S>(samples: Seq<S>, k: int) -> Seq<S> {
    let start = k * FRAME_SAMPLES;
    let end = start + FRAME_SAMPLES;
    samples.subrange(
        start,
        if end <= samples.len() {
            end
        } else {
            samples.len() as int
        },
    )
}

/// `frame` is `part`, filled up with `zero`.
pub open spec fn padded<S>(part: Seq<S>, zero: S, frame: Frame<S>) -> bool {
    &&& part.len() <= FRAME_SAMPLES
    &&& forall|i: int| 0 <= i < part.len() ==> #[trigger] frame@[i] == part[i]
    &&& forall|i: int| part.len() <= i < FRAME_SAMPLES ==> #[trigger] frame@[i] == zero
}

/// Running stretch `k` takes the denoiser from `before` to `after` and gives
/// `cleaned`, with the given result.
pub open spec fn ran<S, D: Denoiser<S>>(
    samples: Seq<S>,
    k: int,
    zero: S,
    before: D,
    after: D,
    cleaned: Frame<S>,
    result: Result<(), DspError>,
) -> bool {
    exists|frame: Frame<S>| #[trigger]
        padded(stretch(samples, k), zero, frame) && before.denoises(frame, &after, cleaned, result)
}

/// Running stretch `k` succeeded.
pub open spec fn ran_well<S, D: Denoiser<S>>(
    samples: Seq<S>,
    k: int,
    zero: S,
    before: D,
    after: D,
    cleaned: Frame<S>,
) -> bool {
    exists|result: Result<(), DspError>|
        result is Ok && #[trigger] ran(samples, k, zero, before, after, cleaned, result)
}

/// `states` are the denoiser's, and `cleaned` the frames it gave, over the
/// first stretches of `samples`, none of which failed.
pub open spec fn cleans<S, D: Denoiser<S>>(
    samples: Seq<S>,
    zero: S,
    states: Seq<D>,
    cleaned: Seq<Frame<S>>,
) -> bool {
    &&& states.len() == cleaned.len() + 1
    &&& forall|k: int|
        0 <= k < cleaned.len() ==> ran_well(
            samples,
            k,
            zero,
            states[k],
            states[k + 1],
            #[trigger] cleaned[k],
        )
}

/// `out` is the cleaned frames, one after another, as far as the recording
/// goes.
pub open spec fn assembled<S>(samples: Seq<S>, cleaned: Seq<Frame<S>>, out: Seq<S>) -> bool {
    &&& out.len() <= cleaned.len() * FRAME_SAMPLES
    &&& out.len() <= samples.len()
    &&& forall|i: int|
        0 <= i < out.len() ==> #[trigger] out[i] == cleaned[i / (FRAME_SAMPLES as int)]@[i % (
        FRAME_SAMPLES as int)]
}

/// Running all of `samples` took the denoiser from `before` to `after` and gave
/// `out`.
pub open spec fn denoised<S, D: Denoiser<S>>(
    samples: Seq<S>,
    zero: S,
    before: D,
    after: D,
    out: Seq<S>,
) -> bool {
    &&& out.len() == samples.len()
    &&& exists|states: Seq<D>, cleaned: Seq<Frame<S>>|
        {
            &&& #[trigger] cleans(samples, zero, states, cleaned)
            &&& states[0] == before
            &&& states.last() == after
            &&& cleaned.len() == crate::resample::ceil_div(
                samples.len() as int,
                FRAME_SAMPLES as int,
            )
            &&& #[trigger] assembled(samples, cleaned, out)
        }
}

/// Fill a frame from a stretch and silence.
fn pad_frame<S: Copy>(part: &[S], zero: S) -> (frame: Frame<S>)
    requires
        part@.len() <= FRAME_SAMPLES,
    ensures
        padded(part@, zero, frame),
{
    let mut frame: Frame<S> = [zero; FRAME_SAMPLES];
    for i in 0..part.len()
        invariant
            part@.len() <= FRAME_SAMPLES,
            forall|j: int| 0 <= j < i ==> #[trigger] frame@[j] == part@[j],
            forall|j: int| i <= j < FRAME_SAMPLES ==> #[trigger] frame@[j] == zero,
    {
        frame[i] = part[i];
    }
    frame
}

/// Run a recording through a denoiser, 480 samples at a time. The last stretch
/// is filled up with silence for the denoiser, and cut back to its length
/// again: what comes out is as long as what went in.
pub fn denoise_samples<S: Copy, D: Denoiser<S>>(samples: &[S], denoiser: &mut D, zero: S) -> (r:
    Result<Vec<S>, DspError>)
    ensures
        r matches Ok(out) ==> denoised(samples@, zero, *old(denoiser), *final(denoiser), out@),
        r matches Err(e) ==> exists|states: Seq<D>, cleaned: Seq<Frame<S>>, last: Frame<S>|
            {
                &&& #[trigger] cleans(samples@, zero, states, cleaned)
                &&& states[0] == *old(denoiser)
                &&& cleaned.len() * FRAME_SAMPLES < samples@.len()
                &&& #[trigger] ran(
                    samples@,
                    cleaned.len() as int,
                    zero,
                    states.last(),
                    *final(denoiser),
                    last,
                    Err(e),
                )
            },
{
    let length: usize = samples.len();
    let mut out: Vec<S> = Vec::with_capacity(length);
    let mut at: usize = 0;
    let ghost mut states: Seq<D> = seq![*denoiser];
    let ghost mut cleaned: Seq<Frame<S>> = Seq::empty();
    while at < length
        invariant
            length == samples@.len(),
            at <= length,
            at == cleaned.len() * FRAME_SAMPLES || at == length,
            at <= cleaned.len() * FRAME_SAMPLES < at + FRAME_SAMPLES,
            out@.len() == at,
            cleans(samples@, zero, states, cleaned),
            states[0] == *old(denoiser),
            states.last() == *denoiser,
            assembled(samples@, cleaned, out@),
        decreases length - at,
    {
        let take: usize = if length - at < FRAME_SAMPLES {
            length - at
        } else {
            FRAME_SAMPLES
        };
        let part = slice_subrange(samples, at, at + take);
        assert(part@ =~= stretch(samples@, cleaned.len() as int));
        let mut frame = pad_frame(part, zero);
        let ghost noisy = frame;
        let ghost before = *denoiser;
        let result = denoiser.process_frame(&mut frame);
        assert(padded(stretch(samples@, cleaned.len() as int), zero, noisy));
        assert(before.denoises(noisy, &*denoiser, frame, result));
        assert(ran(
            samples@,
            cleaned.len() as int,
            zero,
            before,
            *denoiser,
            frame,
            result,
        ));
        let ghost outcome = result;
        match result {
            Err(e) => {
                return Err(e);
            },
            Ok(()) => {},
        }
        let ghost done = out@;
        for i in 0..take
            invariant
                take <= FRAME_SAMPLES,
                frame@.len() == FRAME_SAMPLES,
                out@ == done + frame@.take(i as int),
        {
            out.push(frame[i]);
            assert(out@ =~= done + frame@.take(i + 1));
        }
        proof {
            let grown = cleaned.push(frame);
            let more = states.push(*denoiser);
            assert forall|k: int| 0 <= k < grown.len() implies ran_well(
                samples@,
                k,
                zero,
                more[k],
                more[k + 1],
                #[trigger] grown[k],
            ) by {
                if k < cleaned.len() {
                    assert(grown[k] == cleaned[k]);
                    assert(more[k] == states[k]);
                    assert(more[k + 1] == states[k + 1]);
                } else {
                    assert(ran(samples@, k, zero, more[k], more[k + 1], grown[k], outcome));
                }
            }
            assert forall|i: int| 0 <= i < out@.len() implies #[trigger] out@[i] == grown[i / (
            FRAME_SAMPLES as int)]@[i % (FRAME_SAMPLES as int)] by {
                if i < at {
                    assert(done[i] == out@[i]);
                } else {
                    assert(at == cleaned.len() * FRAME_SAMPLES);
                    assert(out@[i] == frame@[i - at]);
                    assert(i / 480 == cleaned.len());
                    assert(i % 480 == i - at);
                }
            }
            cleaned = grown;
            states = more;
        }
        at = at + take;
    }
    assert(cleaned.len() == crate::resample::ceil_div(
        samples@.len() as int,
        FRAME_SAMPLES as int,
    ));
    assert(cleans(samples@, zero, states, cleaned));
    assert(assembled(samples@, cleaned, out@));
    Ok(out)
}

/// The denoiser makes `cleaned` of `noisy`, going from `before` to `after`.
pub open spec fn succeeds<S, D: Denoiser<S>>(
    before: D,
    noisy: Frame<S>,
    after: D,
    cleaned: Frame<S>,
) -> bool {
    exists|result: Result<(), DspError>|
        result is Ok && #[trigger] before.denoises(noisy, &after, cleaned, result)
}

/// The run of a recording, sample by sample: `given[k]` is the `k`-th frame that
/// the denoiser is given, and `made[k]` what it makes of it, one after the
/// other from `before` to `after`. Sample `i` of the recording is place
/// `i % 480` of frame `i / 480`, what is left of the last frame is silence, and
/// sample `i` of the result is taken from the same place.
pub open spec fn runs_in_order<S, D: Denoiser<S>>(
    samples: Seq<S>,
    zero: S,
    before: D,
    after: D,
    out: Seq<S>,
    states: Seq<D>,
    given: Seq<Frame<S>>,
    made: Seq<Frame<S>>,
) -> bool {
    &&& states.len() == given.len() + 1
    &&& made.len() == given.len()
    &&& 480 * given.len() >= samples.len()
    &&& 480 * given.len() < samples.len() + 480
    &&& states[0] == before
    &&& states.last() == after
    &&& forall|k: int|
        0 <= k < given.len() ==> succeeds(states[k], #[trigger] given[k], states[k + 1], made[k])
    &&& forall|i: int|
        0 <= i < 480 * given.len() ==> #[trigger] given[i / 480]@[i % 480] == if i
            < samples.len() {
            samples[i]
        } else {
            zero
        }
    &&& out.len() == samples.len()
    &&& forall|i: int| 0 <= i < out.len() ==> #[trigger] out[i] == made[i / 480]@[i % 480]
}

/// Some frame that `ran_well` says the denoiser was given.
proof fn lemma_given<S, D: Denoiser<S>>(
    samples: Seq<S>,
    zero: S,
    states: Seq<D>,
    cleaned: Seq<Frame<S>>,
    n: int,
) -> (given: Seq<Frame<S>>)
    requires
        cleans(samples, zero, states, cleaned),
        0 <= n <= cleaned.len(),
    ensures
        given.len() == n,
        forall|k: int|
            0 <= k < n ==> padded(stretch(samples, k), zero, #[trigger] given[k]) && succeeds(
                states[k],
                given[k],
                states[k + 1],
                cleaned[k],
            ),
    decreases n,
{
    if n == 0 {
        Seq::empty()
    } else {
        let k = n - 1;
        let init = lemma_given(samples, zero, states, cleaned, k);
        assert(ran_well(samples, k, zero, states[k], states[k + 1], cleaned[k]));
        let result = choose|result: Result<(), DspError>|
            result is Ok && #[trigger] ran(
                samples,
                k,
                zero,
                states[k],
                states[k + 1],
                cleaned[k],
                result,
            );
        let frame = choose|frame: Frame<S>| #[trigger]
            padded(stretch(samples, k), zero, frame) && states[k].denoises(
                frame,
                &states[k + 1],
                cleaned[k],
                result,
            );
        let given = init.push(frame);
        assert(succeeds(states[k], frame, states[k + 1], cleaned[k]));
        assert forall|j: int| 0 <= j < n implies padded(
            stretch(samples, j),
            zero,
            #[trigger] given[j],
        ) && succeeds(states[j], given[j], states[j + 1], cleaned[j]) by {
            if j < k {
                assert(given[j] == init[j]);
            } else {
                assert(given[j] == frame);
            }
        }
        given
    }
}

/// A recording goes through the denoiser from front to back, 480 samples at a
/// time and each sample in its place, and comes back the same way.
pub proof fn law_a_recording_goes_through_in_order<S, D: Denoiser<S>>(
    samples: Seq<S>,
    zero: S,
    before: D,
    after: D,
    out: Seq<S>,
) -> (r: (Seq<D>, Seq<Frame<S>>, Seq<Frame<S>>))
    requires
        denoised(samples, zero, before, after, out),
    ensures
        runs_in_order(samples, zero, before, after, out, r.0, r.1, r.2),
{
    let (states, cleaned) = choose|states: Seq<D>, cleaned: Seq<Frame<S>>|
        {
            &&& #[trigger] cleans(samples, zero, states, cleaned)
            &&& states[0] == before
            &&& states.last() == after
            &&& cleaned.len() == crate::resample::ceil_div(
                samples.len() as int,
                FRAME_SAMPLES as int,
            )
            &&& #[trigger] assembled(samples, cleaned, out)
        };
    let given = lemma_given(samples, zero, states, cleaned, cleaned.len() as int);
    assert forall|i: int| 0 <= i < 480 * given.len() implies #[trigger] given[i / 480]@[i % 480]
        == if i < samples.len() {
        samples[i]
    } else {
        zero
    } by {
        let k = i / 480;
        assert(0 <= k < given.len());
        assert(padded(stretch(samples, k), zero, given[k]));
        let part = stretch(samples, k);
        if i < samples.len() {
            assert(part[i % 480] == samples[i]);
        }
    }
    (states, given, cleaned)
}

/// A denoiser that works on every sample by itself, whichever frame it is in,
/// works on the recording sample by sample. One that leaves every frame as it
/// is gives the recording back.
pub proof fn law_what_is_done_to_samples_is_done_to_the_recording<S, D: Denoiser<S>>(
    samples: Seq<S>,
    zero: S,
    before: D,
    after: D,
    out: Seq<S>,
    work: spec_fn(S) -> S,
)
    requires
        denoised(samples, zero, before, after, out),
        forall|d: D, noisy: Frame<S>, e: D, cleaned: Frame<S>, result: Result<(), DspError>|
            #[trigger] d.denoises(noisy, &e, cleaned, result) && result is Ok ==> forall|i: int|
                0 <= i < 480 ==> #[trigger] cleaned@[i] == work(noisy@[i]),
    ensures
        out.len() == samples.len(),
        forall|i: int| 0 <= i < samples.len() ==> #[trigger] out[i] == work(samples[i]),
        (forall|s: S| #[trigger] work(s) == s) ==> out == samples,
{
    let (states, given, made) = law_a_recording_goes_through_in_order(
        samples,
        zero,
        before,
        after,
        out,
    );
    assert forall|i: int| 0 <= i < samples.len() implies #[trigger] out[i] == work(
        samples[i],
    ) by {
        let k = i / 480;
        assert(0 <= k < given.len());
        let frame = given[k];
        assert(succeeds(states[k], frame, states[k + 1], made[k]));
        assert(made[k]@[i % 480] == work(frame@[i % 480]));
        assert(given[i / 480]@[i % 480] == samples[i]);
    }
    if forall|s: S| #[trigger] work(s) == s {
        assert forall|i: int| 0 <= i < samples.len() implies #[trigger] out[i] == samples[i] by {
            assert(work(samples[i]) == samples[i]);
        }
        assert(out =~= samples);
    }
}

/// Levels are measured over windows of 20 ms.
pub const WINDOW: usize = 960;

/// The `k`-th window; the last one may be shorter.
pub open spec fn window_at<S>(samples: Seq<S>, k: int) -> Seq<S> {
    let start = k * WINDOW;
    let end = start + WINDOW;
    samples.subrange(
        start,
        if end <= samples.len() {
            end
        } else {
            samples.len() as int
        },
    )
}

/// Every sample of the window is digital silence.
pub open spec fn silent_window<S, Z: Fn(S) -> bool>(window: Seq<S>, sounding: Z) -> bool {
    forall|i: int| 0 <= i < window.len() ==> call_ensures(sounding, (#[trigger] window[i],), false)
}

/// Some sample of the window is not.
pub open spec fn sounding_window<S, Z: Fn(S) -> bool>(window: Seq<S>, sounding: Z) -> bool {
    exists|i: int| 0 <= i < window.len() && call_ensures(sounding, (#[trigger] window[i],), true)
}

/// `value` is the level of the window.
pub open spec fn window_level<S, L: Fn(Vec<S>) -> i32>(
    window: Seq<S>,
    level: L,
    value: i32,
) -> bool {
    exists|w: Vec<S>| w@ == window && #[trigger] call_ensures(level, (w,), value)
}

/// `levels` are those of the first `n` windows, without the ones that are
/// digitally silent: a gate further up that zeroed them would otherwise pass
/// for a spectacular noise floor.
pub open spec fn levels_of<S, Z: Fn(S) -> bool, L: Fn(Vec<S>) -> i32>(
    samples: Seq<S>,
    n: nat,
    sounding: Z,
    level: L,
    levels: Seq<i32>,
) -> bool
    decreases n,
{
    if n == 0 {
        levels.len() == 0
    } else {
        let k = (n - 1) as nat;
        let window = window_at(samples, k as int);
        ||| silent_window(window, sounding) && levels_of(samples, k, sounding, level, levels)
        ||| {
            &&& sounding_window(window, sounding)
            &&& levels.len() > 0
            &&& window_level(window, level, levels.last())
            &&& levels_of(samples, k, sounding, level, levels.drop_last())
        }
    }
}

/// From the quietest to the loudest.
pub open spec fn ascending(levels: Seq<i32>) -> bool {
    forall|i: int, j: int| 0 <= i <= j < levels.len() ==> #[trigger] levels[i] <= #[trigger] levels[j]
}

/// `Vec::sort` on whole numbers: the same numbers, in ascending order.
#[verifier::external_body]
fn sort_levels(levels: &mut Vec<i32>)
    ensures
        ascending(final(levels)@),
        final(levels)@.to_multiset() == old(levels)@.to_multiset(),
{
    levels.sort()
}

/// `value` is the level at the place that `place` gives for so many levels,
/// or the loudest where there is no such place.
pub open spec fn percentile_of<P: Fn(usize) -> usize>(
    sorted: Seq<i32>,
    place: P,
    value: i32,
) -> bool {
    exists|i: usize| #[trigger]
        call_ensures(place, (sorted.len() as usize,), i) && value == if i < sorted.len() {
            sorted[i as int]
        } else {
            sorted.last()
        }
}

/// The level at the place that `place` gives. `sorted` ascends.
fn percentile<P: Fn(usize) -> usize>(sorted: &Vec<i32>, place: &P) -> (r: i32)
    requires
        sorted@.len() > 0,
        forall|n: usize| call_requires(*place, (n,)),
    ensures
        percentile_of(sorted@, *place, r),
{
    let n: usize = sorted.len();
    let i: usize = place(n);
    assert(call_ensures(*place, (sorted@.len() as usize,), i));
    if i < n {
        sorted[i]
    } else {
        sorted[n - 1]
    }
}

/// A 32-bit float, by its bits, has its sign set.
pub open spec fn sign_set(bits: u32) -> bool {
    bits >= 0x8000_0000
}

/// The total order of 32-bit floats, by their bits: those with the sign set
/// come first, and the further from zero the earlier; then the others, the
/// nearer to zero the earlier.
pub open spec fn float_below(a: u32, b: u32) -> bool {
    if sign_set(a) != sign_set(b) {
        sign_set(a)
    } else if sign_set(a) {
        a > b
    } else {
        a < b
    }
}

/// The whole number that stands for a float.
pub open spec fn key_of(bits: u32) -> int {
    if sign_set(bits) {
        0x7fff_ffff - bits
    } else {
        bits as int
    }
}

/// A whole number that is ordered as the float with these bits is.
pub fn level_key(bits: u32) -> (r: i32)
    ensures
        r == key_of(bits),
{
    if bits >= 0x8000_0000 {
        -((bits - 0x8000_0000) as i32) - 1
    } else {
        bits as i32
    }
}

/// The bits of the float that a whole number stands for.
pub fn level_bits(key: i32) -> (r: u32)
    ensures
        key_of(r) == key,
{
    if key < 0 {
        (-(key + 1)) as u32 + 0x8000_0000
    } else {
        key as u32
    }
}

/// Keys are ordered as the floats they stand for, and no two floats share one.
pub proof fn law_level_keys_keep_the_order_of_the_floats(a: u32, b: u32)
    ensures
        key_of(a) < key_of(b) <==> float_below(a, b),
        key_of(a) == key_of(b) <==> a == b,
        i32::MIN <= key_of(a) <= i32::MAX,
{
}

/// How loud the quiet and the loud parts of a recording are.
///
/// Levels are whole numbers that are ordered as the levels are: the keys that
/// [`level_key`] makes of them.
#[derive(Debug, Clone, Copy, PartialEq, Eq, Structural)]
pub struct LevelProfile {
    /// A low percentile: the noise that is left between words.
    pub floor: i32,
    /// A high percentile: how loud the speech itself is.
    pub speech: i32,
}

/// Whether some sample of a window is not digital silence.
fn any_sounding<S: Copy, Z: Fn(S) -> bool>(window: &[S], sounding: &Z) -> (r: bool)
    requires
        forall|s: S| call_requires(*sounding, (s,)),
    ensures
        r ==> sounding_window(window@, *sounding),
        !r ==> silent_window(window@, *sounding),
{
    for i in 0..window.len()
        invariant
            forall|s: S| call_requires(*sounding, (s,)),
            forall|j: int|
                0 <= j < i ==> call_ensures(*sounding, (#[trigger] window@[j],), false),
    {
        if sounding(window[i]) {
            assert(call_ensures(*sounding, (window@[i as int],), true));
            return true;
        }
    }
    false
}

/// `profile` is read off the levels, where `sorted` is those in order; without
/// any level it is `silence` throughout.
pub open spec fn reads<P: Fn(usize) -> usize, Q: Fn(usize) -> usize>(
    levels: Seq<i32>,
    sorted: Seq<i32>,
    floor_place: P,
    speech_place: Q,
    silence: i32,
    profile: LevelProfile,
) -> bool {
    &&& ascending(sorted)
    &&& sorted.to_multiset() == levels.to_multiset()
    &&& levels.len() == 0 ==> profile.floor == silence && profile.speech == silence
    &&& levels.len() > 0 ==> percentile_of(sorted, floor_place, profile.floor) && percentile_of(
        sorted,
        speech_place,
        profile.speech,
    )
}

/// `profile` is what a recording measures: it is read off the levels of all of
/// its windows.
pub open spec fn measures<
    S,
    Z: Fn(S) -> bool,
    L: Fn(Vec<S>) -> i32,
    P: Fn(usize) -> usize,
    Q: Fn(usize) -> usize,
>(
    samples: Seq<S>,
    sounding: Z,
    level: L,
    floor_place: P,
    speech_place: Q,
    silence: i32,
    profile: LevelProfile,
) -> bool {
    exists|levels: Seq<i32>, sorted: Seq<i32>|
        {
            &&& #[trigger] levels_of(
                samples,
                crate::resample::ceil_div(samples.len() as int, WINDOW as int) as nat,
                sounding,
                level,
                levels,
            )
            &&& #[trigger] reads(levels, sorted, floor_place, speech_place, silence, profile)
        }
}

impl LevelProfile {
    /// Measure a recording. `sounding` says whether a sample is other than
    /// digital silence, `level` how loud a window is, and the two places where
    /// in the sorted levels the quiet and the loud parts are read. A recording
    /// without any sound measures `silence` throughout.
    pub fn measure<
        S: Copy,
        Z: Fn(S) -> bool,
        L: Fn(Vec<S>) -> i32,
        P: Fn(usize) -> usize,
        Q: Fn(usize) -> usize,
    >(
        samples: &[S],
        sounding: &Z,
        level: &L,
        floor_place: &P,
        speech_place: &Q,
        silence: i32,
    ) -> (r: Self)
        requires
            forall|s: S| call_requires(*sounding, (s,)),
            forall|w: Vec<S>| call_requires(*level, (w,)),
            forall|n: usize| call_requires(*floor_place, (n,)),
            forall|n: usize| call_requires(*speech_place, (n,)),
        ensures
            measures(samples@, *sounding, *level, *floor_place, *speech_place, silence, r),
    {
        let length: usize = samples.len();
        let mut levels: Vec<i32> = Vec::new();
        let mut at: usize = 0;
        let ghost mut n: nat = 0;
        while at < length
            invariant
                length == samples@.len(),
                at <= length,
                at == n * WINDOW || at == length,
                at <= n * WINDOW < at + WINDOW,
                forall|s: S| call_requires(*sounding, (s,)),
                forall|w: Vec<S>| call_requires(*level, (w,)),
                levels_of(samples@, n, *sounding, *level, levels@),
            decreases length - at,
        {
            let take: usize = if length - at < WINDOW {
                length - at
            } else {
                WINDOW
            };
            let window = slice_subrange(samples, at, at + take);
            assert(window@ =~= window_at(samples@, n as int));
            let ghost before = levels@;
            if any_sounding(window, sounding) {
                let mut copy: Vec<S> = Vec::with_capacity(take);
                for i in 0..take
                    invariant
                        take == window@.len(),
                        copy@ == window@.take(i as int),
                {
                    copy.push(window[i]);
                    assert(copy@ =~= window@.take(i + 1));
                }
                assert(copy@ =~= window@);
                let ghost given = copy;
                let value: i32 = level(copy);
                assert(call_ensures(*level, (given,), value));
                assert(window_level(window_at(samples@, n as int), *level, value));
                levels.push(value);
                assert(levels@.drop_last() =~= before);
            }
            proof {
                n = n + 1;
                assert(levels_of(samples@, n, *sounding, *level, levels@));
            }
            at = at + take;
        }
        assert(n == crate::resample::ceil_div(length as int, WINDOW as int));
        let ghost all = levels@;
        assert(levels_of(
            samples@,
            crate::resample::ceil_div(samples@.len() as int, WINDOW as int) as nat,
            *sounding,
            *level,
            all,
        ));
        sort_levels(&mut levels);
        proof {
            broadcast use vstd::seq_lib::group_to_multiset_ensures;

            assert(levels@.to_multiset().len() == all.to_multiset().len());
        }
        let profile = if levels.len() == 0 {
            LevelProfile { floor: silence, speech: silence }
        } else {
            LevelProfile {
                floor: percentile(&levels, floor_place),
                speech: percentile(&levels, speech_place),
            }
        };
        assert(reads(all, levels@, *floor_place, *speech_place, silence, profile));
        profile
    }
}

/// The quiet parts never measure louder than the loud parts, where they are
/// read from an earlier place, or from the same.
pub proof fn law_the_floor_is_below_the_speech<
    S,
    Z: Fn(S) -> bool,
    L: Fn(Vec<S>) -> i32,
    P: Fn(usize) -> usize,
    Q: Fn(usize) -> usize,
>(
    samples: Seq<S>,
    sounding: Z,
    level: L,
    floor_place: P,
    speech_place: Q,
    silence: i32,
    profile: LevelProfile,
)
    requires
        forall|n: usize, i: usize, j: usize| #[trigger]
            call_ensures(floor_place, (n,), i) && #[trigger] call_ensures(speech_place, (n,), j)
                ==> i <= j,
        measures(samples, sounding, level, floor_place, speech_place, silence, profile),
    ensures
        profile.floor <= profile.speech,
{
    broadcast use vstd::seq_lib::group_to_multiset_ensures;

    let (levels, sorted) = choose|levels: Seq<i32>, sorted: Seq<i32>|
        {
            &&& #[trigger] levels_of(
                samples,
                crate::resample::ceil_div(samples.len() as int, WINDOW as int) as nat,
                sounding,
                level,
                levels,
            )
            &&& #[trigger] reads(levels, sorted, floor_place, speech_place, silence, profile)
        };
    if levels.len() > 0 {
        assert(sorted.to_multiset().len() == levels.to_multiset().len());
        let n = sorted.len() as usize;
        let i = choose|i: usize| #[trigger]
            call_ensures(floor_place, (n,), i) && profile.floor == if i < sorted.len() {
                sorted[i as int]
            } else {
                sorted.last()
            };
        let j = choose|j: usize| #[trigger]
            call_ensures(speech_place, (n,), j) && profile.speech == if j < sorted.len() {
                sorted[j as int]
            } else {
                sorted.last()
            };
        assert(i <= j);
        let low = if i < sorted.len() {
            i as int
        } else {
            sorted.len() - 1
        };
        let high = if j < sorted.len() {
            j as int
        } else {
            sorted.len() - 1
        };
        assert(sorted[low] <= sorted[high]);
    }
}

/// A recording without a single sample that sounds, an empty one among them,
/// measures as silence throughout.
pub proof fn law_a_silent_recording_measures_as_silence<
    S,
    Z: Fn(S) -> bool,
    L: Fn(Vec<S>) -> i32,
    P: Fn(usize) -> usize,
    Q: Fn(usize) -> usize,
>(
    samples: Seq<S>,
    sounding: Z,
    level: L,
    floor_place: P,
    speech_place: Q,
    silence: i32,
    profile: LevelProfile,
)
    requires
        forall|i: int|
            0 <= i < samples.len() ==> !call_ensures(sounding, (#[trigger] samples[i],), true),
        measures(samples, sounding, level, floor_place, speech_place, silence, profile),
    ensures
        profile == (LevelProfile { floor: silence, speech: silence }),
{
    let n = crate::resample::ceil_div(samples.len() as int, WINDOW as int) as nat;
    let (levels, sorted) = choose|levels: Seq<i32>, sorted: Seq<i32>|
        {
            &&& #[trigger] levels_of(samples, n, sounding, level, levels)
            &&& #[trigger] reads(levels, sorted, floor_place, speech_place, silence, profile)
        };
    lemma_silence_has_no_levels(samples, n, sounding, level, levels);
}

proof fn lemma_silence_has_no_levels<S, Z: Fn(S) -> bool, L: Fn(Vec<S>) -> i32>(
    samples: Seq<S>,
    n: nat,
    sounding: Z,
    level: L,
    levels: Seq<i32>,
)
    requires
        forall|i: int|
            0 <= i < samples.len() ==> !call_ensures(sounding, (#[trigger] samples[i],), true),
        n <= crate::resample::ceil_div(samples.len() as int, WINDOW as int),
        levels_of(samples, n, sounding, level, levels),
    ensures
        levels.len() == 0,
    decreases n,
{
    if n > 0 {
        let k = (n - 1) as nat;
        let window = window_at(samples, k as int);
        assert(k * WINDOW < samples.len());
        assert(!sounding_window(window, sounding)) by {
            assert forall|i: int| 0 <= i < window.len() implies !call_ensures(
                sounding,
                (#[trigger] window[i],),
                true,
            ) by {
                assert(window[i] == samples[k * WINDOW + i]);
            }
        }
        lemma_silence_has_no_levels(samples, k, sounding, level, levels);
    }
}

/// `block` put in before the `k`-th window.
pub open spec fn with_window<S>(samples: Seq<S>, k: int, block: Seq<S>) -> Seq<S> {
    samples.take(k * WINDOW) + block + samples.skip(k * WINDOW)
}

/// Blocks put in one after another, each before the window it names.
pub open spec fn with_windows<S>(samples: Seq<S>, blocks: Seq<(int, Seq<S>)>) -> Seq<S>
    decreases blocks.len(),
{
    if blocks.len() == 0 {
        samples
    } else {
        with_window(with_windows(samples, blocks.drop_last()), blocks.last().0, blocks.last().1)
    }
}

/// Every block is a window of digital silence, put in where a window starts or
/// at the end of whole windows.
pub open spec fn silent_blocks<S, Z: Fn(S) -> bool>(
    samples: Seq<S>,
    blocks: Seq<(int, Seq<S>)>,
    sounding: Z,
) -> bool
    decreases blocks.len(),
{
    blocks.len() > 0 ==> {
        let (k, block) = blocks.last();
        &&& silent_blocks(samples, blocks.drop_last(), sounding)
        &&& 0 <= k
        &&& k * WINDOW <= with_windows(samples, blocks.drop_last()).len()
        &&& block.len() == WINDOW
        &&& silent_window(block, sounding)
    }
}

/// What is measured with is a function of what it is given.
pub open spec fn repeatable<
    S,
    Z: Fn(S) -> bool,
    L: Fn(Vec<S>) -> i32,
    P: Fn(usize) -> usize,
    Q: Fn(usize) -> usize,
>(sounding: Z, level: L, floor_place: P, speech_place: Q) -> bool {
    &&& forall|s: S| #[trigger]
        call_ensures(sounding, (s,), true) ==> !call_ensures(sounding, (s,), false)
    &&& forall|v: Vec<S>, w: Vec<S>, a: i32, b: i32|
        v@ == w@ && #[trigger] call_ensures(level, (v,), a) && #[trigger] call_ensures(
            level,
            (w,),
            b,
        ) ==> a == b
    &&& forall|n: usize, i: usize, j: usize| #[trigger]
        call_ensures(floor_place, (n,), i) && #[trigger] call_ensures(floor_place, (n,), j) ==> i
            == j
    &&& forall|n: usize, i: usize, j: usize| #[trigger]
        call_ensures(speech_place, (n,), i) && #[trigger] call_ensures(speech_place, (n,), j) ==> i
            == j
}

/// The windows before an inserted one stay, and those after it move on by one,
/// so the levels stay as they are.
proof fn lemma_levels_with_window<S, Z: Fn(S) -> bool, L: Fn(Vec<S>) -> i32>(
    samples: Seq<S>,
    k: int,
    block: Seq<S>,
    n: nat,
    sounding: Z,
    level: L,
    levels: Seq<i32>,
)
    requires
        0 <= k,
        k * WINDOW <= samples.len(),
        block.len() == WINDOW,
        silent_window(block, sounding),
        n <= crate::resample::ceil_div(samples.len() as int, WINDOW as int),
        levels_of(samples, n, sounding, level, levels),
    ensures
        n <= k ==> levels_of(with_window(samples, k, block), n, sounding, level, levels),
        n >= k ==> levels_of(with_window(samples, k, block), n + 1, sounding, level, levels),
    decreases n,
{
    let more = with_window(samples, k, block);
    if n > 0 {
        let m = (n - 1) as nat;
        let window = window_at(samples, m as int);
        if m < k {
            assert(window_at(more, m as int) =~= window);
        } else {
            assert(window_at(more, (m + 1) as int) =~= window);
        }
        if silent_window(window, sounding) && levels_of(samples, m, sounding, level, levels) {
            lemma_levels_with_window(samples, k, block, m, sounding, level, levels);
        } else {
            lemma_levels_with_window(samples, k, block, m, sounding, level, levels.drop_last());
        }
    }
    if n == k {
        assert(window_at(more, k) =~= block);
        assert(levels_of(more, n, sounding, level, levels));
    }
}

proof fn lemma_levels_are_one<S, Z: Fn(S) -> bool, L: Fn(Vec<S>) -> i32>(
    samples: Seq<S>,
    n: nat,
    sounding: Z,
    level: L,
    a: Seq<i32>,
    b: Seq<i32>,
)
    requires
        forall|s: S| #[trigger]
            call_ensures(sounding, (s,), true) ==> !call_ensures(sounding, (s,), false),
        forall|v: Vec<S>, w: Vec<S>, a: i32, b: i32|
            v@ == w@ && #[trigger] call_ensures(level, (v,), a) && #[trigger] call_ensures(
                level,
                (w,),
                b,
            ) ==> a == b,
        levels_of(samples, n, sounding, level, a),
        levels_of(samples, n, sounding, level, b),
    ensures
        a == b,
    decreases n,
{
    if n > 0 {
        let k = (n - 1) as nat;
        let window = window_at(samples, k as int);
        if sounding_window(window, sounding) {
            let i = choose|i: int|
                0 <= i < window.len() && call_ensures(sounding, (#[trigger] window[i],), true);
            assert(!call_ensures(sounding, (window[i],), false));
            lemma_levels_are_one(samples, k, sounding, level, a.drop_last(), b.drop_last());
            assert(a =~= a.drop_last().push(a.last()));
            assert(b =~= b.drop_last().push(b.last()));
        } else {
            lemma_levels_are_one(samples, k, sounding, level, a, b);
        }
    } else {
        assert(a =~= b);
    }
}

proof fn lemma_measures_with_window<
    S,
    Z: Fn(S) -> bool,
    L: Fn(Vec<S>) -> i32,
    P: Fn(usize) -> usize,
    Q: Fn(usize) -> usize,
>(
    samples: Seq<S>,
    k: int,
    block: Seq<S>,
    sounding: Z,
    level: L,
    floor_place: P,
    speech_place: Q,
    silence: i32,
    profile: LevelProfile,
)
    requires
        0 <= k,
        k * WINDOW <= samples.len(),
        block.len() == WINDOW,
        silent_window(block, sounding),
        measures(samples, sounding, level, floor_place, speech_place, silence, profile),
    ensures
        measures(
            with_window(samples, k, block),
            sounding,
            level,
            floor_place,
            speech_place,
            silence,
            profile,
        ),
{
    let n = crate::resample::ceil_div(samples.len() as int, WINDOW as int) as nat;
    let more = with_window(samples, k, block);
    let (levels, sorted) = choose|levels: Seq<i32>, sorted: Seq<i32>|
        {
            &&& #[trigger] levels_of(samples, n, sounding, level, levels)
            &&& #[trigger] reads(levels, sorted, floor_place, speech_place, silence, profile)
        };
    lemma_levels_with_window(samples, k, block, n, sounding, level, levels);
    assert(more.len() == samples.len() + WINDOW);
    assert(crate::resample::ceil_div(more.len() as int, WINDOW as int) == n + 1);
    assert(levels_of(
        more,
        crate::resample::ceil_div(more.len() as int, WINDOW as int) as nat,
        sounding,
        level,
        levels,
    ));
}

proof fn lemma_measures_with_windows<
    S,
    Z: Fn(S) -> bool,
    L: Fn(Vec<S>) -> i32,
    P: Fn(usize) -> usize,
    Q: Fn(usize) -> usize,
>(
    samples: Seq<S>,
    blocks: Seq<(int, Seq<S>)>,
    sounding: Z,
    level: L,
    floor_place: P,
    speech_place: Q,
    silence: i32,
    profile: LevelProfile,
)
    requires
        silent_blocks(samples, blocks, sounding),
        measures(samples, sounding, level, floor_place, speech_place, silence, profile),
    ensures
        measures(
            with_windows(samples, blocks),
            sounding,
            level,
            floor_place,
            speech_place,
            silence,
            profile,
        ),
    decreases blocks.len(),
{
    if blocks.len() > 0 {
        let fewer = blocks.drop_last();
        lemma_measures_with_windows(
            samples,
            fewer,
            sounding,
            level,
            floor_place,
            speech_place,
            silence,
            profile,
        );
        lemma_measures_with_window(
            with_windows(samples, fewer),
            blocks.last().0,
            blocks.last().1,
            sounding,
            level,
            floor_place,
            speech_place,
            silence,
            profile,
        );
    }
}

/// A recording measures one way only.
proof fn lemma_measures_are_one<
    S,
    Z: Fn(S) -> bool,
    L: Fn(Vec<S>) -> i32,
    P: Fn(usize) -> usize,
    Q: Fn(usize) -> usize,
>(
    samples: Seq<S>,
    sounding: Z,
    level: L,
    floor_place: P,
    speech_place: Q,
    silence: i32,
    p: LevelProfile,
    q: LevelProfile,
)
    requires
        repeatable(sounding, level, floor_place, speech_place),
        measures(samples, sounding, level, floor_place, speech_place, silence, p),
        measures(samples, sounding, level, floor_place, speech_place, silence, q),
    ensures
        p == q,
{
    let n = crate::resample::ceil_div(samples.len() as int, WINDOW as int) as nat;
    let (a, x) = choose|levels: Seq<i32>, sorted: Seq<i32>|
        {
            &&& #[trigger] levels_of(samples, n, sounding, level, levels)
            &&& #[trigger] reads(levels, sorted, floor_place, speech_place, silence, p)
        };
    let (b, y) = choose|levels: Seq<i32>, sorted: Seq<i32>|
        {
            &&& #[trigger] levels_of(samples, n, sounding, level, levels)
            &&& #[trigger] reads(levels, sorted, floor_place, speech_place, silence, q)
        };
    lemma_levels_are_one(samples, n, sounding, level, a, b);
    let leq = |i: i32, j: i32| i <= j;
    assert(vstd::relations::sorted_by(x, leq));
    assert(vstd::relations::sorted_by(y, leq));
    vstd::seq_lib::lemma_sorted_unique(x, y, leq);
}

/// Digital silence never counts towards the floor: windows of it, put in
/// anywhere between the windows of a recording and as many as one likes, leave
/// what is measured as it is.
pub proof fn law_digital_silence_does_not_count<
    S,
    Z: Fn(S) -> bool,
    L: Fn(Vec<S>) -> i32,
    P: Fn(usize) -> usize,
    Q: Fn(usize) -> usize,
>(
    samples: Seq<S>,
    blocks: Seq<(int, Seq<S>)>,
    sounding: Z,
    level: L,
    floor_place: P,
    speech_place: Q,
    silence: i32,
    without: LevelProfile,
    with: LevelProfile,
)
    requires
        repeatable(sounding, level, floor_place, speech_place),
        silent_blocks(samples, blocks, sounding),
        measures(samples, sounding, level, floor_place, speech_place, silence, without),
        measures(
            with_windows(samples, blocks),
            sounding,
            level,
            floor_place,
            speech_place,
            silence,
            with,
        ),
    ensures
        with == without,
{
    lemma_measures_with_windows(
        samples,
        blocks,
        sounding,
        level,
        floor_place,
        speech_place,
        silence,
        without,
    );
    lemma_measures_are_one(
        with_windows(samples, blocks),
        sounding,
        level,
        floor_place,
        speech_place,
        silence,
        without,
        with,
    );
}

/// At most `place` of the levels are below `value`, and more than `place` are
/// not above it: in order, `value` is the one behind the first `place`.
pub open spec fn ranks(
    levels: vstd::multiset::Multiset<i32>,
    value: i32,
    place: int,
) -> bool {
    let below: spec_fn(i32) -> bool = |x: i32| x < value;
    let up_to: spec_fn(i32) -> bool = |x: i32| x <= value;
    levels.filter(below).len() <= place < levels.filter(up_to).len()
}

proof fn lemma_place_is_a_rank(sorted: Seq<i32>, at: int)
    requires
        ascending(sorted),
        0 <= at < sorted.len(),
    ensures
        ranks(sorted.to_multiset(), sorted[at], at),
{
    broadcast use vstd::seq_lib::group_to_multiset_ensures;
    broadcast use vstd::multiset::group_multiset_axioms;

    let value = sorted[at];
    let all = sorted.to_multiset();
    let below: spec_fn(i32) -> bool = |x: i32| x < value;
    let up_to: spec_fn(i32) -> bool = |x: i32| x <= value;
    let low = sorted.take(at);
    let high = sorted.skip(at);
    assert(sorted =~= low + high);
    vstd::seq_lib::lemma_multiset_commutative(low, high);
    let under = all.filter(below);
    assert forall|x: i32| under.count(x) <= low.to_multiset().count(x) by {
        if x < value {
            assert(!high.contains(x)) by {
                if high.contains(x) {
                    let k = choose|k: int| 0 <= k < high.len() && high[k] == x;
                    assert(sorted[at] <= sorted[at + k]);
                }
            }
            assert(high.to_multiset().count(x) == 0);
        }
    }
    assert(under.subset_of(low.to_multiset()));
    assert(low.to_multiset().sub(under).len() == at - under.len());
    let first = sorted.take(at + 1);
    let rest = sorted.skip(at + 1);
    assert(sorted =~= first + rest);
    vstd::seq_lib::lemma_multiset_commutative(first, rest);
    let reached = all.filter(up_to);
    assert forall|x: i32| first.to_multiset().count(x) <= reached.count(x) by {
        if first.to_multiset().count(x) > 0 {
            assert(first.contains(x));
            let k = choose|k: int| 0 <= k < first.len() && first[k] == x;
            assert(sorted[k] <= sorted[at]);
        }
    }
    assert(first.to_multiset().subset_of(reached));
    assert(reached.sub(first.to_multiset()).len() == reached.len() - (at + 1));
}

/// Some sample from `lo` on and before `hi` sounds.
pub open spec fn sounds_between<S, Z: Fn(S) -> bool>(
    samples: Seq<S>,
    sounding: Z,
    lo: int,
    hi: int,
) -> bool {
    exists|i: int| lo <= i < hi && call_ensures(sounding, (#[trigger] samples[i],), true)
}

proof fn lemma_levels_of_a_sounding_recording<S, Z: Fn(S) -> bool, L: Fn(Vec<S>) -> i32>(
    samples: Seq<S>,
    m: nat,
    n: nat,
    sounding: Z,
    level: L,
    levels: Seq<i32>,
    loud: spec_fn(Seq<S>) -> i32,
)
    requires
        n <= m,
        samples.len() == 960 * m,
        forall|k: int|
            0 <= k < m ==> #[trigger] sounds_between(samples, sounding, 960 * k, 960 * k + 960),
        forall|s: S| !(call_ensures(sounding, (s,), true) && call_ensures(sounding, (s,), false)),
        forall|w: Vec<S>, v: i32| #[trigger] call_ensures(level, (w,), v) ==> v == loud(w@),
        levels_of(samples, n, sounding, level, levels),
    ensures
        levels == Seq::new(n, |k: int| loud(samples.subrange(960 * k, 960 * k + 960))),
    decreases n,
{
    let expected = Seq::new(n, |k: int| loud(samples.subrange(960 * k, 960 * k + 960)));
    if n > 0 {
        let k = n - 1;
        let window = window_at(samples, k);
        assert(window =~= samples.subrange(960 * k, 960 * k + 960));
        assert(sounds_between(samples, sounding, 960 * k, 960 * k + 960));
        let i = choose|i: int|
            960 * k <= i < 960 * k + 960 && call_ensures(sounding, (#[trigger] samples[i],), true);
        assert(window[i - 960 * k] == samples[i]);
        assert(!silent_window(window, sounding));
        lemma_levels_of_a_sounding_recording(
            samples,
            m,
            k as nat,
            sounding,
            level,
            levels.drop_last(),
            loud,
        );
        assert(levels =~= levels.drop_last().push(levels.last()));
        assert(levels =~= expected);
    } else {
        assert(levels =~= expected);
    }
}

/// What is measured is a matter of rank. Where every 20 ms of a recording
/// sound, `m` windows in all, and the places for `m` levels are given, the floor
/// and the speech are those of the windows' levels that have that rank among
/// them; a place past the end stands for the last.
pub proof fn law_levels_are_read_by_rank<
    S,
    Z: Fn(S) -> bool,
    L: Fn(Vec<S>) -> i32,
    P: Fn(usize) -> usize,
    Q: Fn(usize) -> usize,
>(
    samples: Seq<S>,
    m: nat,
    sounding: Z,
    level: L,
    floor_place: P,
    speech_place: Q,
    silence: i32,
    profile: LevelProfile,
    loud: spec_fn(Seq<S>) -> i32,
    floor_at: usize,
    speech_at: usize,
)
    requires
        0 < m <= usize::MAX,
        samples.len() == 960 * m,
        forall|k: int|
            0 <= k < m ==> #[trigger] sounds_between(samples, sounding, 960 * k, 960 * k + 960),
        forall|s: S| !(call_ensures(sounding, (s,), true) && call_ensures(sounding, (s,), false)),
        forall|w: Vec<S>, v: i32| #[trigger] call_ensures(level, (w,), v) ==> v == loud(w@),
        forall|i: usize| #[trigger] call_ensures(floor_place, (m as usize,), i) ==> i == floor_at,
        forall|i: usize| #[trigger]
            call_ensures(speech_place, (m as usize,), i) ==> i == speech_at,
        measures(samples, sounding, level, floor_place, speech_place, silence, profile),
    ensures
        ({
            let levels = Seq::new(
                m,
                |k: int| loud(samples.subrange(960 * k, 960 * k + 960)),
            ).to_multiset();
            &&& ranks(
                levels,
                profile.floor,
                if floor_at < m {
                    floor_at as int
                } else {
                    m - 1
                },
            )
            &&& ranks(
                levels,
                profile.speech,
                if speech_at < m {
                    speech_at as int
                } else {
                    m - 1
                },
            )
        }),
{
    broadcast use vstd::seq_lib::group_to_multiset_ensures;

    let n = crate::resample::ceil_div(samples.len() as int, WINDOW as int) as nat;
    assert(n == m);
    let (levels, sorted) = choose|levels: Seq<i32>, sorted: Seq<i32>|
        {
            &&& #[trigger] levels_of(samples, n, sounding, level, levels)
            &&& #[trigger] reads(levels, sorted, floor_place, speech_place, silence, profile)
        };
    lemma_levels_of_a_sounding_recording(samples, m, m, sounding, level, levels, loud);
    assert(sorted.to_multiset().len() == levels.to_multiset().len());
    assert(sorted.len() == m);
    lemma_place_is_a_rank(
        sorted,
        if floor_at < m {
            floor_at as int
        } else {
            m - 1
        },
    );
    lemma_place_is_a_rank(
        sorted,
        if speech_at < m {
            speech_at as int
        } else {
            m - 1
        },
    );
}

} // verus!
