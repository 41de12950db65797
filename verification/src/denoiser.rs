//! Running a denoiser on the pipeline's frames: which one, under what limit,
//! and what it cost.
use vstd::prelude::*;
use vstd::string::StringExecFns;

use crate::error::DspError;
use crate::text::{push_decimal, same_text};
use crate::{Frame, FRAME_SAMPLES};

verus! {

/// A denoiser works on 480-sample mono frames at 48 kHz, in place, on one
/// thread. It may remember earlier frames.
pub trait Denoiser<S>: Sized {
    /// What one call of `process_frame` may do: turn `noisy` into `cleaned`,
    /// and this denoiser's memory into `after`, and report `result`. A denoiser
    /// that does not say may do anything.
    open spec fn denoises(
        &self,
        noisy: Frame<S>,
        after: &Self,
        cleaned: Frame<S>,
        result: Result<(), DspError>,
    ) -> bool {
        true
    }

    fn process_frame(&mut self, frame: &mut Frame<S>) -> (r: Result<(), DspError>)
        ensures
            old(self).denoises(*old(frame), final(self), *final(frame), r),
    ;

    /// What the denoiser may call itself. One that does not say may use any
    /// name.
    open spec fn goes_by(&self, name: Seq<char>) -> bool {
        true
    }

    fn name(&self) -> (r: &'static str)
        ensures
            self.goes_by(r@),
    ;
}

/// What the denoiser has done so far.
#[derive(Debug, Clone, Copy, PartialEq, Eq, Structural)]
pub struct Stats {
    /// Frames processed, bypassed ones included.
    pub frames: u64,
    /// Time spent in the denoiser, in nanoseconds, without bypassed frames.
    pub dsp_ns: u64,
    /// The longest a single frame has taken, in nanoseconds.
    pub peak_frame_ns: u64,
}

impl Default for Stats {
    /// Nothing processed.
    fn default() -> (r: Self)
        ensures
            r.frames == 0,
            r.dsp_ns == 0,
            r.peak_frame_ns == 0,
    {
        Stats { frames: 0, dsp_ns: 0, peak_frame_ns: 0 }
    }
}

/// The larger of two times.
pub open spec fn longer(a: u64, b: u64) -> u64 {
    if a > b {
        a
    } else {
        b
    }
}

impl Stats {
    /// The counters after one more frame, which was bypassed.
    pub open spec fn after_bypass(&self) -> Stats {
        Stats { frames: self.frames.wrapping_add(1), ..*self }
    }

    /// The counters after one more frame, which took `elapsed_ns`.
    pub open spec fn after_frame(&self, elapsed_ns: u64) -> Stats {
        Stats {
            frames: self.frames.wrapping_add(1),
            dsp_ns: self.dsp_ns.wrapping_add(elapsed_ns),
            peak_frame_ns: longer(elapsed_ns, self.peak_frame_ns),
        }
    }

    /// Count a frame.
    pub fn count_frame(&mut self)
        ensures
            *final(self) == old(self).after_bypass(),
    {
        self.frames = self.frames.wrapping_add(1);
    }

    /// Account for the time that the frame just counted took.
    pub fn count_time(&mut self, elapsed_ns: u64)
        ensures
            final(self).frames == old(self).frames,
            final(self).dsp_ns == old(self).dsp_ns.wrapping_add(elapsed_ns),
            final(self).peak_frame_ns == longer(elapsed_ns, old(self).peak_frame_ns),
    {
        self.dsp_ns = self.dsp_ns.wrapping_add(elapsed_ns);
        if elapsed_ns > self.peak_frame_ns {
            self.peak_frame_ns = elapsed_ns;
        }
    }
}

/// `std::time::Instant`, a moment of the machine's clock.
#[verifier::external_type_specification]
#[verifier::external_body]
pub struct ExInstant(std::time::Instant);

/// `std::time::Instant::now`: the current moment. Of the time nothing is
/// promised.
#[verifier::external_body]
pub(crate) fn now() -> (r: std::time::Instant)
{
    std::time::Instant::now()
}

/// The nanoseconds since `start`, by `std::time::Instant::elapsed`, cut to 64
/// bits. Of the time nothing is promised.
#[verifier::external_body]
fn nanos_since(start: &std::time::Instant) -> (r: u64)
{
    start.elapsed().as_nanos() as u64
}

/// `elapsed_ns` is what the clock gave for the time since an earlier reading.
pub closed spec fn is_measured(elapsed_ns: u64) -> bool {
    exists|start: std::time::Instant|
        #![trigger call_ensures(now, (), start)]
        call_ensures(now, (), start) && call_ensures(nanos_since, (&start,), elapsed_ns)
}

/// Holds a denoiser, lets it be bypassed, and measures what it costs.
pub struct DenoiserHost<D> {
    inner: D,
    bypass: bool,
    stats: Stats,
}

impl<D> DenoiserHost<D> {
    pub closed spec fn spec_inner(&self) -> D {
        self.inner
    }

    pub closed spec fn spec_bypass(&self) -> bool {
        self.bypass
    }

    pub closed spec fn spec_stats(&self) -> Stats {
        self.stats
    }

    /// A host that does not bypass and has processed nothing.
    pub fn new(inner: D) -> (r: Self)
        ensures
            r.spec_inner() == inner,
            !r.spec_bypass(),
            r.spec_stats() == (Stats { frames: 0, dsp_ns: 0, peak_frame_ns: 0 }),
    {
        DenoiserHost { inner, bypass: false, stats: Stats::default() }
    }

    /// Bypass the denoiser from the next frame on, or stop bypassing it.
    pub fn set_bypass(&mut self, bypass: bool)
        ensures
            final(self).spec_bypass() == bypass,
            final(self).spec_inner() == old(self).spec_inner(),
            final(self).spec_stats() == old(self).spec_stats(),
    {
        self.bypass = bypass;
    }

    /// The counters.
    pub fn stats(&self) -> (r: Stats)
        ensures
            r == self.spec_stats(),
    {
        self.stats
    }

    /// Run one frame through the denoiser, or leave it as it is when bypassed.
    ///
    /// A failed frame counts like any other. What it took is what the clock
    /// says has passed since it was read before the frame, which may be any
    /// time.
    pub fn process<S>(&mut self, frame: &mut Frame<S>) -> (r: Result<(), DspError>) where
        D: Denoiser<S>,

        ensures
            final(self).spec_bypass() == old(self).spec_bypass(),
            old(self).spec_bypass() ==> {
                &&& r is Ok
                &&& *final(frame) == *old(frame)
                &&& final(self).spec_inner() == old(self).spec_inner()
                &&& final(self).spec_stats() == old(self).spec_stats().after_bypass()
            },
            !old(self).spec_bypass() ==> {
                &&& old(self).spec_inner().denoises(
                    *old(frame),
                    &final(self).spec_inner(),
                    *final(frame),
                    r,
                )
                &&& exists|elapsed_ns: u64|
                    is_measured(elapsed_ns) && final(self).spec_stats()
                        == #[trigger] old(self).spec_stats().after_frame(elapsed_ns)
            },
    {
        self.stats.count_frame();
        if self.bypass {
            return Ok(());
        }
        let start = now();
        let r = self.inner.process_frame(frame);
        let elapsed_ns: u64 = nanos_since(&start);
        self.stats.count_time(elapsed_ns);
        assert(is_measured(elapsed_ns));
        assert(self.spec_stats() == old(self).spec_stats().after_frame(elapsed_ns));
        r
    }

    /// What the denoiser calls itself.
    pub fn name<S>(&self) -> (r: &'static str) where D: Denoiser<S>
        ensures
            self.spec_inner().goes_by(r@),
    {
        self.inner.name()
    }
}

/// The peak never falls, and every frame counts once, whatever the clock says.
pub proof fn law_the_peak_only_rises(stats: Stats, elapsed_ns: u64)
    ensures
        stats.after_frame(elapsed_ns).peak_frame_ns >= stats.peak_frame_ns,
        stats.after_frame(elapsed_ns).peak_frame_ns >= elapsed_ns,
        stats.after_frame(elapsed_ns).frames == stats.after_bypass().frames,
{
}

/// The denoisers there are.
#[derive(Debug, Clone, Copy, PartialEq, Eq, Structural)]
pub enum Backend {
    /// DeepFilterNet3 as three graphs, in a directory or an archive.
    Tract,
    /// A streaming model in a single file.
    Onnx,
    /// The built-in fallback, which needs no model.
    RnNoise,
}

/// Which denoiser a model calls for. `model` is `None` when there is no model,
/// else whether it is a directory, and the extension of its name.
///
/// A directory is how the installer lays DeepFilterNet3 down, a `.gz` archive
/// how its authors do.
pub fn choose_backend(model: Option<(bool, Option<&str>)>) -> (r: Backend)
    ensures
        r == (match model {
            None => Backend::RnNoise,
            Some((is_dir, extension)) => if is_dir || (extension matches Some(e) && e@ == "gz"@) {
                Backend::Tract
            } else {
                Backend::Onnx
            },
        }),
{
    match model {
        None => Backend::RnNoise,
        Some((is_dir, extension)) => {
            if is_dir {
                return Backend::Tract;
            }
            match extension {
                Some(e) => if same_text(e, "gz") {
                    Backend::Tract
                } else {
                    Backend::Onnx
                },
                None => Backend::Onnx,
            }
        },
    }
}

impl Backend {
    /// The name that the denoiser goes by, where it is the same for every
    /// model.
    pub fn fixed_name(&self) -> (r: Option<&'static str>)
        ensures
            r is Some <==> *self is Tract,
            r matches Some(name) ==> name@ == "DeepFilterNet3 (tract)"@,
    {
        match self {
            Backend::Tract => Some("DeepFilterNet3 (tract)"),
            _ => None,
        }
    }
}

/// Refuse a model whose blocks are not the pipeline's frames.
pub fn check_hop_size(hop_size: usize) -> (r: Result<(), DspError>)
    ensures
        r is Ok <==> hop_size == FRAME_SAMPLES,
        r matches Err(e) ==> (e matches DspError::Load(why) && why@ == "model hop size is "@
            + crate::text::decimal(hop_size as nat)
            + " but the pipeline works in 480-sample frames"@),
{
    if hop_size == FRAME_SAMPLES {
        return Ok(());
    }
    let mut why = "model hop size is ".to_owned();
    push_decimal(&mut why, hop_size as u64);
    why.append(" but the pipeline works in 480-sample frames");
    Err(DspError::Load(why))
}

/// A 32-bit float, by its bits, is not a number.
pub open spec fn is_nan_bits(bits: u32) -> bool {
    bits % 0x8000_0000 > 0x7f80_0000
}

/// A 32-bit float, by its bits, is above zero.
pub open spec fn is_positive_bits(bits: u32) -> bool {
    0 < bits <= 0x7f80_0000
}

/// The bits of the float 100.
pub const ATTENUATION_MAX_BITS: u32 = 0x42c8_0000;

/// The attenuation limit, in decibels by its bits, that a streaming model is
/// given: zero lets it suppress as much as it likes, and nothing below zero
/// means anything.
pub fn clamp_attenuation(bits: u32) -> (r: u32)
    ensures
        r == (if is_positive_bits(bits) {
            bits
        } else {
            0
        }),
{
    if 0 < bits && bits <= 0x7f80_0000 {
        bits
    } else {
        0
    }
}

/// The attenuation limit, in decibels by its bits, that the three-graph runner
/// is given. There zero would mean to suppress nothing, where the setting
/// means no limit; no limit is spelled as a hundred.
pub fn tract_attenuation(bits: u32) -> (r: u32)
    ensures
        r == (if is_positive_bits(bits) || is_nan_bits(bits) {
            bits
        } else {
            ATTENUATION_MAX_BITS
        }),
{
    let positive = 0 < bits && bits <= 0x7f80_0000;
    let nan = bits % 0x8000_0000 > 0x7f80_0000;
    if positive || nan {
        bits
    } else {
        ATTENUATION_MAX_BITS
    }
}

/// The counters add up: after a run of frames, as long as they fit, there are
/// as many frames as were run, the time is the sum of their times, and the peak
/// is the longest of them.
pub proof fn law_the_counters_add_up(stats: Seq<Stats>, times: Seq<u64>)
    requires
        stats.len() == times.len() + 1,
        stats[0] == (Stats { frames: 0, dsp_ns: 0, peak_frame_ns: 0 }),
        forall|k: int|
            0 <= k < times.len() ==> stats[k + 1] == stats[k].after_frame(#[trigger] times[k]),
        times.len() <= u64::MAX,
        crate::dfn_frontend::sum(times.map_values(|t: u64| t as int)) <= u64::MAX,
    ensures
        stats.last().frames == times.len(),
        stats.last().dsp_ns == crate::dfn_frontend::sum(times.map_values(|t: u64| t as int)),
        forall|k: int| 0 <= k < times.len() ==> #[trigger] times[k] <= stats.last().peak_frame_ns,
        times.len() > 0 ==> times.contains(stats.last().peak_frame_ns),
    decreases times.len(),
{
    let all = times.map_values(|t: u64| t as int);
    if times.len() > 0 {
        let fewer = times.drop_last();
        let before = stats.drop_last();
        assert(all.drop_last() =~= fewer.map_values(|t: u64| t as int));
        assert(all.last() == times.last());
        assert forall|k: int| 0 <= k < fewer.len() implies before[k + 1] == before[k].after_frame(
            #[trigger] fewer[k],
        ) by {
            assert(fewer[k] == times[k]);
            assert(before[k + 1] == stats[k + 1]);
        }
        law_the_counters_add_up(before, fewer);
        let n = times.len() - 1;
        assert(stats[n + 1] == stats[n].after_frame(times[n]));
        assert(before.last() == stats[n]);
        assert(times.contains(times[n]));
        if fewer.len() > 0 {
            let k = choose|k: int| 0 <= k < fewer.len() && fewer[k] == before.last().peak_frame_ns;
            assert(times[k] == before.last().peak_frame_ns);
        }
        assert forall|k: int| 0 <= k < times.len() implies #[trigger] times[k]
            <= stats.last().peak_frame_ns by {
            if k < n {
                assert(fewer[k] == times[k]);
            }
        }
    } else {
        assert(all.len() == 0);
    }
}

} // verus!
