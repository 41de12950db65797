//! DeepFilterNet3 from its three graphs: what the host does around them.
//!
//! For every hop the front end makes a spectrum and features, the graphs make
//! a gain for each band and filter taps for the lowest bins, and both are
//! applied here. The output lags the input by two hops: the model estimates a
//! frame having seen two frames beyond it.
use vstd::prelude::*;

use crate::dfn_frontend::{DfFrontend, FREQ_BINS, NB_DF, NB_ERB};
use crate::error::DspError;
use crate::{Frame, FRAME_SAMPLES};

verus! {

/// Filter taps per bin.
pub const DF_ORDER: usize = 5;

/// How many hops the model looks ahead.
pub const DF_LOOKAHEAD: usize = 2;

/// Spectra kept: enough to filter a frame that is emitted two hops late.
pub const HISTORY: usize = 7;

/// The frame that is emitted: the newest one the model has seen past.
pub const EMIT: usize = 4;

/// Filter coefficients per hop: a real and an imaginary part for every tap of
/// every filtered bin.
pub const COEFS: usize = 960;

/// The dimensions of an encoder stage with so many values: the skip
/// connections keep 64 channels, and only the last dimension differs.
pub fn stage_dims(len: usize) -> (r: [i64; 4])
    requires
        len <= i64::MAX,
    ensures
        r@ == seq![1i64, 64i64, 1i64, (len / 64) as i64],
{
    let last: i64 = (len / 64) as i64;
    let dims: [i64; 4] = [1, 64, 1, last];
    assert(dims@ =~= seq![1i64, 64i64, 1i64, (len / 64) as i64]);
    dims
}

/// `out` is `spectrum` with every bin of a band scaled by the band's gain.
/// Bands without a gain keep their bins.
pub open spec fn gained<S, C, K: Fn(C, S) -> C>(
    spectrum: Seq<C>,
    widths: Seq<usize>,
    gains: Seq<S>,
    scale: K,
    out: Seq<C>,
) -> bool {
    &&& out.len() == spectrum.len()
    &&& forall|b: int, k: int|
        #![trigger crate::dfn_frontend::band_start(widths, b), out[k]]
        0 <= b < widths.len() && crate::dfn_frontend::band_start(widths, b) <= k
            < crate::dfn_frontend::band_start(widths, b) + widths[b] ==> if b < gains.len() {
            call_ensures(scale, (spectrum[k], gains[b]), out[k])
        } else {
            out[k] == spectrum[k]
        }
}

/// Scale every bin of a band by the band's gain, flat across its width.
pub fn apply_erb_gains<S: Copy, C: Copy, K: Fn(C, S) -> C>(
    spectrum: &Vec<C>,
    widths: &Vec<usize>,
    gains: &Vec<S>,
    scale: &K,
) -> (out: Vec<C>)
    requires
        crate::dfn_frontend::sum(crate::dfn_frontend::as_ints(widths@)) == spectrum@.len(),
        forall|c: C, g: S| call_requires(*scale, (c, g)),
    ensures
        gained(spectrum@, widths@, gains@, *scale, out@),
{
    let length: usize = spectrum.len();
    let mut out: Vec<C> = Vec::with_capacity(length);
    assert(crate::dfn_frontend::as_ints(widths@).take(0) =~= Seq::<int>::empty());
    for b in 0..widths.len()
        invariant
            length == spectrum@.len(),
            crate::dfn_frontend::sum(crate::dfn_frontend::as_ints(widths@)) == length,
            forall|c: C, g: S| call_requires(*scale, (c, g)),
            out@.len() == crate::dfn_frontend::band_start(widths@, b as int),
            forall|a: int, k: int|
                #![trigger crate::dfn_frontend::band_start(widths@, a), out@[k]]
                0 <= a < b && crate::dfn_frontend::band_start(widths@, a) <= k
                    < crate::dfn_frontend::band_start(widths@, a) + widths@[a] ==> if a
                    < gains@.len() {
                    call_ensures(*scale, (spectrum@[k], gains@[a]), out@[k])
                } else {
                    out@[k] == spectrum@[k]
                },
    {
        proof {
            crate::dfn_frontend::lemma_band_start(widths@, b as int);
        }
        let start: usize = out.len();
        let width: usize = widths[b];
        for j in 0..width
            invariant
                length == spectrum@.len(),
                b < widths@.len(),
                width == widths@[b as int],
                start == crate::dfn_frontend::band_start(widths@, b as int),
                start + width <= length,
                forall|c: C, g: S| call_requires(*scale, (c, g)),
                out@.len() == start + j,
                forall|a: int, k: int|
                    #![trigger crate::dfn_frontend::band_start(widths@, a), out@[k]]
                    0 <= a < b && k < start && crate::dfn_frontend::band_start(widths@, a) <= k
                        < crate::dfn_frontend::band_start(widths@, a) + widths@[a] ==> if a
                        < gains@.len() {
                        call_ensures(*scale, (spectrum@[k], gains@[a]), out@[k])
                    } else {
                        out@[k] == spectrum@[k]
                    },
                forall|k: int|
                    start <= k < start + j ==> if b < gains@.len() {
                        call_ensures(*scale, (spectrum@[k], gains@[b as int]), #[trigger] out@[k])
                    } else {
                        out@[k] == spectrum@[k]
                    },
        {
            let ghost before = out@;
            let bin: C = spectrum[start + j];
            if b < gains.len() {
                out.push(scale(bin, gains[b]));
            } else {
                out.push(bin);
            }
            assert forall|a: int, k: int|
                #![trigger crate::dfn_frontend::band_start(widths@, a), out@[k]]
                0 <= a < b && k < start && crate::dfn_frontend::band_start(widths@, a) <= k
                    < crate::dfn_frontend::band_start(widths@, a) + widths@[a] implies if a
                < gains@.len() {
                call_ensures(*scale, (spectrum@[k], gains@[a]), out@[k])
            } else {
                out@[k] == spectrum@[k]
            } by {
                crate::dfn_frontend::lemma_band_start(widths@, a);
                assert(out@[k] == before[k]);
            }
            assert forall|k: int| start <= k < start + j + 1 implies if b < gains@.len() {
                call_ensures(*scale, (spectrum@[k], gains@[b as int]), #[trigger] out@[k])
            } else {
                out@[k] == spectrum@[k]
            } by {
                if k < start + j {
                    assert(out@[k] == before[k]);
                }
            }
        }
        assert forall|a: int, k: int|
            #![trigger crate::dfn_frontend::band_start(widths@, a), out@[k]]
            0 <= a < b + 1 && crate::dfn_frontend::band_start(widths@, a) <= k
                < crate::dfn_frontend::band_start(widths@, a) + widths@[a] implies if a
            < gains@.len() {
            call_ensures(*scale, (spectrum@[k], gains@[a]), out@[k])
        } else {
            out@[k] == spectrum@[k]
        } by {
            if a < b {
                lemma_bands_ascend(widths@, a, b as int);
            }
        }
    }
    assert(crate::dfn_frontend::as_ints(widths@).take(widths@.len() as int)
        =~= crate::dfn_frontend::as_ints(widths@));
    out
}

/// A band ends where a later one starts, or before.
proof fn lemma_bands_ascend(widths: Seq<usize>, a: int, b: int)
    requires
        0 <= a < b <= widths.len(),
    ensures
        crate::dfn_frontend::band_start(widths, a) >= 0,
        crate::dfn_frontend::band_start(widths, a) + widths[a] <= crate::dfn_frontend::band_start(
            widths,
            b,
        ),
    decreases b - a,
{
    crate::dfn_frontend::lemma_band_start(widths, a);
    if a + 1 < b {
        lemma_bands_ascend(widths, a + 1, b);
        crate::dfn_frontend::lemma_band_start(widths, a + 1);
    }
}

/// One tap of the filter: `after` is `before` plus the bin of the tap's frame
/// times the tap's coefficient.
pub open spec fn taps<S, C, J: Fn(S, S) -> C, M: Fn(C, C) -> C, A: Fn(C, C) -> C>(
    history: Seq<Vec<C>>,
    coefs: Seq<S>,
    bin: int,
    tap: int,
    complex: J,
    times: M,
    plus: A,
    before: C,
    after: C,
) -> bool {
    let base = (bin * DF_ORDER + tap) * 2;
    exists|c: C, p: C|
        {
            &&& #[trigger] call_ensures(complex, (coefs[base], coefs[base + 1]), c)
            &&& #[trigger] call_ensures(times, (history[HISTORY - DF_ORDER + tap]@[bin], c), p)
            &&& call_ensures(plus, (before, p), after)
        }
}

/// `value` is the filter's output for one bin: its taps added up, the first of
/// them on the oldest of the newest five frames.
pub open spec fn filtered_bin<S, C, J: Fn(S, S) -> C, M: Fn(C, C) -> C, A: Fn(C, C) -> C>(
    history: Seq<Vec<C>>,
    coefs: Seq<S>,
    bin: int,
    complex: J,
    times: M,
    plus: A,
    zero: C,
    value: C,
) -> bool {
    exists|acc: Seq<C>|
        {
            &&& #[trigger] acc.len() == DF_ORDER + 1
            &&& acc[0] == zero
            &&& acc[DF_ORDER as int] == value
            &&& forall|t: int|
                0 <= t < DF_ORDER ==> taps(
                    history,
                    coefs,
                    bin,
                    t,
                    complex,
                    times,
                    plus,
                    #[trigger] acc[t],
                    acc[t + 1],
                )
        }
}

/// `out` is `spectrum` with its lowest bins replaced by the filter's output,
/// the first of them with its imaginary part dropped.
pub open spec fn filtered<
    S,
    C,
    J: Fn(S, S) -> C,
    M: Fn(C, C) -> C,
    A: Fn(C, C) -> C,
    R: Fn(C) -> C,
>(
    spectrum: Seq<C>,
    history: Seq<Vec<C>>,
    coefs: Seq<S>,
    complex: J,
    times: M,
    plus: A,
    real_only: R,
    zero: C,
    out: Seq<C>,
) -> bool {
    &&& out.len() == spectrum.len()
    &&& forall|bin: int| NB_DF <= bin < spectrum.len() ==> #[trigger] out[bin] == spectrum[bin]
    &&& forall|bin: int|
        1 <= bin < NB_DF ==> filtered_bin(
            history,
            coefs,
            bin,
            complex,
            times,
            plus,
            zero,
            #[trigger] out[bin],
        )
    &&& exists|dc: C|
        #[trigger] filtered_bin(history, coefs, 0, complex, times, plus, zero, dc) && call_ensures(
            real_only,
            (dc,),
            out[0],
        )
}

/// Filter one bin across the history.
fn filter_bin<S: Copy, C: Copy, J: Fn(S, S) -> C, M: Fn(C, C) -> C, A: Fn(C, C) -> C>(
    history: &Vec<Vec<C>>,
    coefs: &Vec<S>,
    bin: usize,
    complex: &J,
    times: &M,
    plus: &A,
    zero: C,
) -> (value: C)
    requires
        bin < NB_DF,
        coefs@.len() >= COEFS,
        history@.len() == HISTORY,
        forall|i: int| 0 <= i < HISTORY ==> (#[trigger] history@[i])@.len() == FREQ_BINS,
        forall|a: S, b: S| call_requires(*complex, (a, b)),
        forall|a: C, b: C| call_requires(*times, (a, b)),
        forall|a: C, b: C| call_requires(*plus, (a, b)),
    ensures
        filtered_bin(history@, coefs@, bin as int, *complex, *times, *plus, zero, value),
{
    let mut acc: C = zero;
    let ghost mut trace: Seq<C> = seq![zero];
    for tap in 0..DF_ORDER
        invariant
            bin < NB_DF,
            coefs@.len() >= COEFS,
            history@.len() == HISTORY,
            forall|i: int| 0 <= i < HISTORY ==> (#[trigger] history@[i])@.len() == FREQ_BINS,
            forall|a: S, b: S| call_requires(*complex, (a, b)),
            forall|a: C, b: C| call_requires(*times, (a, b)),
            forall|a: C, b: C| call_requires(*plus, (a, b)),
            trace.len() == tap + 1,
            trace[0] == zero,
            trace[tap as int] == acc,
            forall|t: int|
                0 <= t < tap ==> taps(
                    history@,
                    coefs@,
                    bin as int,
                    t,
                    *complex,
                    *times,
                    *plus,
                    #[trigger] trace[t],
                    trace[t + 1],
                ),
    {
        let base: usize = (bin * DF_ORDER + tap) * 2;
        let c = complex(coefs[base], coefs[base + 1]);
        let frame: &Vec<C> = &history[HISTORY - DF_ORDER + tap];
        let p = times(frame[bin], c);
        let next = plus(acc, p);
        proof {
            assert(call_ensures(*complex, (coefs@[base as int], coefs@[base + 1]), c));
            assert(call_ensures(
                *times,
                (history@[HISTORY - DF_ORDER + tap]@[bin as int], c),
                p,
            ));
            assert(taps(
                history@,
                coefs@,
                bin as int,
                tap as int,
                *complex,
                *times,
                *plus,
                acc,
                next,
            ));
            let grown = trace.push(next);
            assert forall|t: int| 0 <= t < tap + 1 implies taps(
                history@,
                coefs@,
                bin as int,
                t,
                *complex,
                *times,
                *plus,
                #[trigger] grown[t],
                grown[t + 1],
            ) by {
                if t < tap {
                    assert(grown[t] == trace[t]);
                    assert(grown[t + 1] == trace[t + 1]);
                }
            }
            trace = grown;
        }
        acc = next;
    }
    assert(trace.len() == DF_ORDER + 1);
    acc
}

/// Replace the lowest bins with a filter across the noisy history.
///
/// A real signal has no phase at 0 Hz and the inverse transform insists on it,
/// so `real_only` drops the imaginary part of the first bin.
pub fn apply_deep_filter<
    S: Copy,
    C: Copy,
    J: Fn(S, S) -> C,
    M: Fn(C, C) -> C,
    A: Fn(C, C) -> C,
    R: Fn(C) -> C,
>(
    spectrum: &Vec<C>,
    history: &Vec<Vec<C>>,
    coefs: &Vec<S>,
    complex: &J,
    times: &M,
    plus: &A,
    real_only: &R,
    zero: C,
) -> (out: Vec<C>)
    requires
        spectrum@.len() == FREQ_BINS,
        coefs@.len() >= COEFS,
        history@.len() == HISTORY,
        forall|i: int| 0 <= i < HISTORY ==> (#[trigger] history@[i])@.len() == FREQ_BINS,
        forall|a: S, b: S| call_requires(*complex, (a, b)),
        forall|a: C, b: C| call_requires(*times, (a, b)),
        forall|a: C, b: C| call_requires(*plus, (a, b)),
        forall|a: C| call_requires(*real_only, (a,)),
    ensures
        filtered(
            spectrum@,
            history@,
            coefs@,
            *complex,
            *times,
            *plus,
            *real_only,
            zero,
            out@,
        ),
{
    let dc = filter_bin(history, coefs, 0, complex, times, plus, zero);
    let mut out: Vec<C> = Vec::with_capacity(FREQ_BINS);
    out.push(real_only(dc));
    for bin in 1..FREQ_BINS
        invariant
            spectrum@.len() == FREQ_BINS,
            coefs@.len() >= COEFS,
            history@.len() == HISTORY,
            forall|i: int| 0 <= i < HISTORY ==> (#[trigger] history@[i])@.len() == FREQ_BINS,
            forall|a: S, b: S| call_requires(*complex, (a, b)),
            forall|a: C, b: C| call_requires(*times, (a, b)),
            forall|a: C, b: C| call_requires(*plus, (a, b)),
            filtered_bin(history@, coefs@, 0, *complex, *times, *plus, zero, dc),
            call_ensures(*real_only, (dc,), out@[0]),
            out@.len() == bin,
            forall|k: int| NB_DF <= k < bin ==> #[trigger] out@[k] == spectrum@[k],
            forall|k: int|
                1 <= k < NB_DF && k < bin ==> filtered_bin(
                    history@,
                    coefs@,
                    k,
                    *complex,
                    *times,
                    *plus,
                    zero,
                    #[trigger] out@[k],
                ),
    {
        let ghost before = out@;
        if bin < NB_DF {
            out.push(filter_bin(history, coefs, bin, complex, times, plus, zero));
        } else {
            out.push(spectrum[bin]);
        }
        assert forall|k: int| 1 <= k < NB_DF && k < bin + 1 implies filtered_bin(
            history@,
            coefs@,
            k,
            *complex,
            *times,
            *plus,
            zero,
            #[trigger] out@[k],
        ) by {
            if k < bin {
                assert(out@[k] == before[k]);
            }
        }
        assert(out@[0] == before[0]);
    }
    out
}

/// The count of emitted hops after one more. It stops where it no longer
/// matters.
pub open spec fn hops_after(primed: usize) -> int {
    if primed <= DF_LOOKAHEAD {
        primed + 1
    } else {
        primed as int
    }
}

/// What is put out of the `audio` made for a hop: silence while the frame it
/// was made of is from before the stream.
pub open spec fn put_out<S>(primed: usize, zero: S, audio: Seq<S>) -> Seq<S> {
    if primed < DF_LOOKAHEAD {
        Seq::new(FRAME_SAMPLES as nat, |i: int| zero)
    } else {
        audio
    }
}

/// What the graphs are given for one hop.
pub struct Features<S> {
    /// The normalised level of each band.
    pub erb: Vec<S>,
    /// The lowest bins: all real parts, then all imaginary parts.
    pub planes: Vec<S>,
}

/// The host's side of DeepFilterNet3.
pub struct Dfn3Denoiser<S, C> {
    front: DfFrontend<S>,
    erb: Vec<usize>,
    history: Vec<Vec<C>>,
    primed: usize,
    zero: S,
}

/// The history moved on by one spectrum: the oldest is gone, and a new one is
/// behind the others.
pub open spec fn slides<C>(before: Seq<Vec<C>>, after: Seq<Vec<C>>) -> bool {
    &&& after.len() == before.len()
    &&& after.drop_last() == before.drop_first()
}

/// `planes` is the bins with their two parts apart: all real parts, then all
/// imaginary parts.
pub open spec fn in_planes<S, C, X: Fn(C) -> S, Y: Fn(C) -> S>(
    bins: Seq<C>,
    re: X,
    im: Y,
    planes: Seq<S>,
) -> bool {
    &&& bins.len() == NB_DF
    &&& planes.len() == 2 * NB_DF
    &&& forall|i: int| 0 <= i < NB_DF ==> call_ensures(re, (bins[i],), #[trigger] planes[i])
    &&& forall|i: int|
        NB_DF <= i < 2 * NB_DF ==> call_ensures(im, (bins[i - NB_DF],), #[trigger] planes[i])
}

/// Observing a hop took the host from `before` to `after`: its spectrum is the
/// newest of the history, and nothing was put out.
pub open spec fn listens<
    S: Copy,
    C: Copy,
    F: Fn(Vec<S>) -> Vec<C>,
    M: Fn(S, S) -> S,
    K: Fn(C) -> C,
>(
    before: Dfn3Denoiser<S, C>,
    after: Dfn3Denoiser<S, C>,
    hop: Seq<S>,
    fft: F,
    times: M,
    scale: K,
) -> bool {
    &&& after.spec_primed() == before.spec_primed()
    &&& after.spec_zero() == before.spec_zero()
    &&& after.spec_erb() == before.spec_erb()
    &&& after.spec_front().same_setup(&before.spec_front())
    &&& after.spec_front().memory() == hop
    &&& after.spec_front().tail() == before.spec_front().tail()
    &&& slides(before.history(), after.history())
    &&& crate::dfn_frontend::analyses(
        before.spec_front().memory() + hop,
        before.spec_front().spec_window(),
        fft,
        times,
        scale,
        after.history().last()@,
    )
}

/// Putting out a hop took the host from `before` to `after`, as far as it is not
/// the tail of the audio.
pub open spec fn speaks<S: Copy, C: Copy>(
    before: Dfn3Denoiser<S, C>,
    after: Dfn3Denoiser<S, C>,
) -> bool {
    &&& after.history() == before.history()
    &&& after.spec_zero() == before.spec_zero()
    &&& after.spec_erb() == before.spec_erb()
    &&& after.spec_front().same_setup(&before.spec_front())
    &&& after.spec_front().memory() == before.spec_front().memory()
    &&& after.spec_front().means() == before.spec_front().means()
    &&& after.spec_front().magnitudes() == before.spec_front().magnitudes()
    &&& after.spec_primed() == hops_after(before.spec_primed())
}

impl<S: Copy, C: Copy> Dfn3Denoiser<S, C> {
    pub closed spec fn spec_front(&self) -> DfFrontend<S> {
        self.front
    }

    pub closed spec fn spec_erb(&self) -> Seq<usize> {
        self.erb@
    }

    /// The newest seven spectra, oldest first, as they were observed.
    pub closed spec fn history(&self) -> Seq<Vec<C>> {
        self.history@
    }

    /// Hops emitted so far, counted up to one more than the look-ahead.
    pub closed spec fn spec_primed(&self) -> usize {
        self.primed
    }

    pub closed spec fn spec_zero(&self) -> S {
        self.zero
    }

    pub open spec fn wf(&self) -> bool {
        &&& self.spec_front().wf()
        &&& self.spec_front().spec_zero() == self.spec_zero()
        &&& crate::dfn_frontend::as_ints(self.spec_erb()) == crate::dfn_frontend::erb_widths_spec()
        &&& self.history().len() == HISTORY
        &&& forall|i: int| 0 <= i < HISTORY ==> (#[trigger] self.history()[i])@.len() == FREQ_BINS
        &&& self.spec_primed() <= DF_LOOKAHEAD + 1
    }

    /// A denoiser at the start of a stream; `silent_bin` is a bin of silence.
    pub fn new(front: DfFrontend<S>, zero: S, silent_bin: C) -> (r: Self)
        requires
            front.wf(),
            front.spec_zero() == zero,
        ensures
            r.wf(),
            r.spec_front() == front,
            r.spec_zero() == zero,
            r.spec_primed() == 0,
            forall|i: int, k: int|
                #![trigger r.history()[i]@[k]]
                0 <= i < HISTORY && 0 <= k < FREQ_BINS ==> r.history()[i]@[k] == silent_bin,
    {
        let mut history: Vec<Vec<C>> = Vec::with_capacity(HISTORY);
        for i in 0..HISTORY
            invariant
                history@.len() == i,
                forall|j: int| 0 <= j < i ==> (#[trigger] history@[j])@.len() == FREQ_BINS,
                forall|j: int, k: int|
                    #![trigger history@[j]@[k]]
                    0 <= j < i && 0 <= k < FREQ_BINS ==> history@[j]@[k] == silent_bin,
        {
            history.push(crate::capture::silence(silent_bin, FREQ_BINS));
        }
        Dfn3Denoiser { front, erb: crate::dfn_frontend::erb_widths(), history, primed: 0, zero }
    }

    /// Take in one hop: slide the history along, analyse the hop into the
    /// newest place, and make the features that the graphs are run on.
    pub fn observe<
        F: Fn(Vec<S>) -> Vec<C>,
        M: Fn(S, S) -> S,
        K: Fn(C) -> C,
        N: Fn(C) -> S,
        A: Fn(S, S) -> S,
        Q: Fn(S, usize) -> S,
        E: Fn(S, S) -> S,
        H: Fn(S, S) -> S,
        G: Fn(C, S) -> S,
        U: Fn(C, S) -> C,
        X: Fn(C) -> S,
        Y: Fn(C) -> S,
    >(
        &mut self,
        frame: &Frame<S>,
        fft: &F,
        times: &M,
        scale: &K,
        energy: &N,
        plus: &A,
        to_level: &Q,
        decay: &E,
        centre: &H,
        bin_decay: &G,
        unit: &U,
        re: &X,
        im: &Y,
    ) -> (r: Features<S>)
        requires
            old(self).wf(),
            forall|b: Vec<S>|
                b@.len() == crate::dfn_frontend::FFT_SIZE ==> call_requires(*fft, (b,)),
            forall|b: Vec<S>, s: Vec<C>|
                b@.len() == crate::dfn_frontend::FFT_SIZE && call_ensures(*fft, (b,), s)
                    ==> s@.len() == FREQ_BINS,
            forall|a: S, b: S| call_requires(*times, (a, b)),
            forall|c: C| call_requires(*scale, (c,)),
            forall|c: C| call_requires(*energy, (c,)),
            forall|a: S, b: S| call_requires(*plus, (a, b)),
            forall|a: S, n: usize| call_requires(*to_level, (a, n)),
            forall|a: S, b: S| call_requires(*decay, (a, b)),
            forall|a: S, b: S| call_requires(*centre, (a, b)),
            forall|c: C, a: S| call_requires(*bin_decay, (c, a)),
            forall|c: C, a: S| call_requires(*unit, (c, a)),
            forall|c: C| call_requires(*re, (c,)),
            forall|c: C| call_requires(*im, (c,)),
        ensures
            final(self).wf(),
            listens(*old(self), *final(self), frame@, *fft, *times, *scale),
            crate::dfn_frontend::erb_features(
                old(self).spec_front().spec_erb(),
                old(self).spec_front().spec_zero(),
                final(self).history().last()@,
                *energy,
                *plus,
                *to_level,
                *decay,
                *centre,
                old(self).spec_front().means(),
                final(self).spec_front().means(),
                r.erb@,
            ),
            exists|bins: Seq<C>|
                {
                    &&& #[trigger] crate::dfn_frontend::spec_features(
                        final(self).history().last()@,
                        *bin_decay,
                        *unit,
                        old(self).spec_front().magnitudes(),
                        final(self).spec_front().magnitudes(),
                        bins,
                    )
                    &&& in_planes(bins, *re, *im, r.planes@)
                },
    {
        let spectrum = self.front.analysis(frame, fft, times, scale);
        let erb = self.front.feat_erb(&spectrum, energy, plus, to_level, decay, centre);
        let bins = self.front.feat_spec(&spectrum, bin_decay, unit);
        let mut planes: Vec<S> = Vec::with_capacity(2 * NB_DF);
        for i in 0..NB_DF
            invariant
                bins@.len() == NB_DF,
                forall|c: C| call_requires(*re, (c,)),
                planes@.len() == i,
                forall|j: int|
                    0 <= j < i ==> call_ensures(*re, (bins@[j],), #[trigger] planes@[j]),
        {
            let ghost before = planes@;
            planes.push(re(bins[i]));
            assert forall|j: int| 0 <= j < i + 1 implies call_ensures(
                *re,
                (bins@[j],),
                #[trigger] planes@[j],
            ) by {
                if j < i {
                    assert(planes@[j] == before[j]);
                }
            }
        }
        for i in 0..NB_DF
            invariant
                bins@.len() == NB_DF,
                forall|c: C| call_requires(*im, (c,)),
                planes@.len() == NB_DF + i,
                forall|j: int|
                    0 <= j < NB_DF ==> call_ensures(*re, (bins@[j],), #[trigger] planes@[j]),
                forall|j: int|
                    NB_DF <= j < NB_DF + i ==> call_ensures(
                        *im,
                        (bins@[j - NB_DF],),
                        #[trigger] planes@[j],
                    ),
        {
            let ghost before = planes@;
            planes.push(im(bins[i]));
            assert forall|j: int| 0 <= j < NB_DF implies call_ensures(
                *re,
                (bins@[j],),
                #[trigger] planes@[j],
            ) by {
                assert(planes@[j] == before[j]);
            }
            assert forall|j: int| NB_DF <= j < NB_DF + i + 1 implies call_ensures(
                *im,
                (bins@[j - NB_DF],),
                #[trigger] planes@[j],
            ) by {
                if j < NB_DF + i {
                    assert(planes@[j] == before[j]);
                }
            }
        }
        let ghost newest = spectrum;
        let oldest = self.history.remove(0);
        self.history.push(spectrum);
        assert(self.history@.last() == newest);
        assert(self.history@.drop_last() =~= old(self).history@.drop_first());
        assert forall|i: int| 0 <= i < HISTORY implies (#[trigger] self.history()[i])@.len()
            == FREQ_BINS by {
            if i < HISTORY - 1 {
                assert(self.history@.drop_last()[i] == self.history@[i]);
                assert(old(self).history@.drop_first()[i] == old(self).history()[i + 1]);
            }
        }
        assert(crate::dfn_frontend::spec_features(
            self.history().last()@,
            *bin_decay,
            *unit,
            old(self).spec_front().magnitudes(),
            self.spec_front().magnitudes(),
            bins@,
        ));
        assert(in_planes(bins@, *re, *im, planes@));
        Features { erb, planes }
    }

    /// The hop `r` that is put out, step by step: the emitted frame `masked` by
    /// the gains, filtered into `target`, transformed back to `raw`, weighted
    /// to `block`, and added to the tail before it as `audio`. The first hops
    /// are silent instead.
    pub open spec fn emission<
        K: Fn(C, S) -> C,
        J: Fn(S, S) -> C,
        M: Fn(C, C) -> C,
        A: Fn(C, C) -> C,
        R: Fn(C) -> C,
        I: Fn(Vec<C>) -> Vec<S>,
        W: Fn(S, S) -> S,
        P: Fn(S, S) -> S,
    >(
        &self,
        tail_after: Seq<S>,
        gains: Seq<S>,
        coefs: Option<Vec<S>>,
        gain: K,
        complex: J,
        times: M,
        plus: A,
        real_only: R,
        zero_bin: C,
        ifft: I,
        weight: W,
        overlap: P,
        masked: Seq<C>,
        target: Vec<C>,
        raw: Vec<S>,
        block: Seq<S>,
        audio: Seq<S>,
        r: Seq<S>,
    ) -> bool {
        &&& gained(self.history()[EMIT as int]@, self.spec_erb(), gains, gain, masked)
        &&& match coefs {
            Some(c) => filtered(
                masked,
                self.history(),
                c@,
                complex,
                times,
                plus,
                real_only,
                zero_bin,
                target@,
            ),
            None => target@ == masked,
        }
        &&& call_ensures(ifft, (target,), raw)
        &&& crate::dfn_frontend::weighted(raw@, self.spec_front().spec_window(), weight, block)
        &&& crate::dfn_frontend::overlap_adds(
            block,
            self.spec_front().tail(),
            overlap,
            self.spec_zero(),
            audio,
            tail_after,
        )
        &&& r == put_out(self.spec_primed(), self.spec_zero(), audio)
    }

    /// Put out the frame that the model has now seen past: apply the gains and,
    /// unless it is switched off, the deep filter, and go back to audio. The
    /// first hops are silent, because the frame they would put out is from
    /// before the stream.
    pub fn emit<
        K: Fn(C, S) -> C,
        J: Fn(S, S) -> C,
        M: Fn(C, C) -> C,
        A: Fn(C, C) -> C,
        R: Fn(C) -> C,
        I: Fn(Vec<C>) -> Vec<S>,
        W: Fn(S, S) -> S,
        P: Fn(S, S) -> S,
    >(
        &mut self,
        gains: &Vec<S>,
        coefs: &Option<Vec<S>>,
        gain: &K,
        complex: &J,
        times: &M,
        plus: &A,
        real_only: &R,
        zero_bin: C,
        ifft: &I,
        weight: &W,
        overlap: &P,
    ) -> (r: Frame<S>)
        requires
            old(self).wf(),
            coefs matches Some(c) ==> c@.len() >= COEFS,
            forall|c: C, g: S| call_requires(*gain, (c, g)),
            forall|a: S, b: S| call_requires(*complex, (a, b)),
            forall|a: C, b: C| call_requires(*times, (a, b)),
            forall|a: C, b: C| call_requires(*plus, (a, b)),
            forall|a: C| call_requires(*real_only, (a,)),
            forall|s: Vec<C>| s@.len() == FREQ_BINS ==> call_requires(*ifft, (s,)),
            forall|s: Vec<C>, b: Vec<S>|
                s@.len() == FREQ_BINS && call_ensures(*ifft, (s,), b) ==> b@.len()
                    == crate::dfn_frontend::FFT_SIZE,
            forall|a: S, b: S| call_requires(*weight, (a, b)),
            forall|a: S, b: S| call_requires(*overlap, (a, b)),
        ensures
            final(self).wf(),
            speaks(*old(self), *final(self)),
            exists|masked: Seq<C>, target: Vec<C>, raw: Vec<S>, block: Seq<S>, audio: Seq<S>| #[trigger]
                old(self).emission(
                    final(self).spec_front().tail(),
                    gains@,
                    *coefs,
                    *gain,
                    *complex,
                    *times,
                    *plus,
                    *real_only,
                    zero_bin,
                    *ifft,
                    *weight,
                    *overlap,
                    masked,
                    target,
                    raw,
                    block,
                    audio,
                    r@,
                ),
    {
        proof {
            crate::dfn_frontend::law_the_bands_cover_every_bin();
        }
        let masked = apply_erb_gains(&self.history[EMIT], &self.erb, gains, gain);
        let ghost mask = masked@;
        let target: Vec<C> = match coefs {
            Some(c) => apply_deep_filter(
                &masked,
                &self.history,
                c,
                complex,
                times,
                plus,
                real_only,
                zero_bin,
            ),
            None => masked,
        };
        let ghost goal = target;
        let mut audio = self.front.synthesis(target, ifft, weight, overlap);
        let ghost played = audio@;
        let ghost (raw, block) = choose|raw: Vec<S>, block: Seq<S>|
            {
                &&& call_ensures(*ifft, (goal,), raw)
                &&& #[trigger] crate::dfn_frontend::weighted(
                    raw@,
                    old(self).spec_front().spec_window(),
                    *weight,
                    block,
                )
                &&& crate::dfn_frontend::overlap_adds(
                    block,
                    old(self).spec_front().tail(),
                    *overlap,
                    old(self).spec_front().spec_zero(),
                    played,
                    self.front.tail(),
                )
            };
        if self.primed <= DF_LOOKAHEAD {
            self.primed = self.primed + 1;
        }
        if self.primed <= DF_LOOKAHEAD {
            audio = [self.zero; FRAME_SAMPLES];
            assert(audio@ =~= put_out(old(self).spec_primed(), old(self).spec_zero(), played));
        }
        assert(old(self).emission(
            self.spec_front().tail(),
            gains@,
            *coefs,
            *gain,
            *complex,
            *times,
            *plus,
            *real_only,
            zero_bin,
            *ifft,
            *weight,
            *overlap,
            mask,
            goal,
            raw,
            block,
            played,
            audio@,
        ));
        audio
    }

    /// Finish a hop with what the graphs made of it: the gains and, unless it
    /// is switched off, the deep filter's coefficients. Where they failed, the
    /// hop fails: `frame` stays as it was recorded, and the hop does not count
    /// as put out.
    pub fn finish<
        K: Fn(C, S) -> C,
        J: Fn(S, S) -> C,
        M: Fn(C, C) -> C,
        A: Fn(C, C) -> C,
        R: Fn(C) -> C,
        I: Fn(Vec<C>) -> Vec<S>,
        W: Fn(S, S) -> S,
        P: Fn(S, S) -> S,
    >(
        &mut self,
        frame: &mut Frame<S>,
        graphs: Result<(Vec<S>, Option<Vec<S>>), DspError>,
        gain: &K,
        complex: &J,
        times: &M,
        plus: &A,
        real_only: &R,
        zero_bin: C,
        ifft: &I,
        weight: &W,
        overlap: &P,
    ) -> (r: Result<(), DspError>)
        requires
            old(self).wf(),
            graphs matches Ok((_, Some(c))) ==> c@.len() >= COEFS,
            forall|c: C, g: S| call_requires(*gain, (c, g)),
            forall|a: S, b: S| call_requires(*complex, (a, b)),
            forall|a: C, b: C| call_requires(*times, (a, b)),
            forall|a: C, b: C| call_requires(*plus, (a, b)),
            forall|a: C| call_requires(*real_only, (a,)),
            forall|s: Vec<C>| s@.len() == FREQ_BINS ==> call_requires(*ifft, (s,)),
            forall|s: Vec<C>, b: Vec<S>|
                s@.len() == FREQ_BINS && call_ensures(*ifft, (s,), b) ==> b@.len()
                    == crate::dfn_frontend::FFT_SIZE,
            forall|a: S, b: S| call_requires(*weight, (a, b)),
            forall|a: S, b: S| call_requires(*overlap, (a, b)),
        ensures
            final(self).wf(),
            graphs matches Err(e) ==> {
                &&& r == Err::<(), DspError>(e)
                &&& *final(self) == *old(self)
                &&& *final(frame) == *old(frame)
            },
            graphs matches Ok((gains, coefs)) ==> {
                &&& r is Ok
                &&& speaks(*old(self), *final(self))
                &&& exists|
                    masked: Seq<C>,
                    target: Vec<C>,
                    raw: Vec<S>,
                    block: Seq<S>,
                    audio: Seq<S>,
                | #[trigger]
                    old(self).emission(
                        final(self).spec_front().tail(),
                        gains@,
                        coefs,
                        *gain,
                        *complex,
                        *times,
                        *plus,
                        *real_only,
                        zero_bin,
                        *ifft,
                        *weight,
                        *overlap,
                        masked,
                        target,
                        raw,
                        block,
                        audio,
                        final(frame)@,
                    )
            },
    {
        match graphs {
            Err(e) => Err(e),
            Ok((gains, coefs)) => {
                *frame = self.emit(
                    &gains,
                    &coefs,
                    gain,
                    complex,
                    times,
                    plus,
                    real_only,
                    zero_bin,
                    ifft,
                    weight,
                    overlap,
                );
                Ok(())
            },
        }
    }
}

/// One hop took the host from `before` to `after`. `audio` is what was made for
/// it and `out` what was put out; both are `None` where the graphs failed.
pub open spec fn hop<S: Copy, C: Copy>(
    before: Dfn3Denoiser<S, C>,
    after: Dfn3Denoiser<S, C>,
    audio: Option<Seq<S>>,
    out: Option<Seq<S>>,
) -> bool {
    &&& after.spec_zero() == before.spec_zero()
    &&& match audio {
        None => out is None && after.spec_primed() == before.spec_primed(),
        Some(made) => {
            &&& out == Some(put_out(before.spec_primed(), before.spec_zero(), made))
            &&& after.spec_primed() == hops_after(before.spec_primed())
        },
    }
}

/// How many hops did not fail.
pub open spec fn emitted<S>(audio: Seq<Option<Seq<S>>>) -> int
    decreases audio.len(),
{
    if audio.len() == 0 {
        0
    } else {
        emitted(audio.drop_last()) + if audio.last() is Some {
            1int
        } else {
            0
        }
    }
}

proof fn lemma_primed_counts<S: Copy, C: Copy>(
    hosts: Seq<Dfn3Denoiser<S, C>>,
    audio: Seq<Option<Seq<S>>>,
    out: Seq<Option<Seq<S>>>,
    k: int,
)
    requires
        hosts.len() == audio.len() + 1,
        out.len() == audio.len(),
        hosts[0].spec_primed() == 0,
        forall|i: int|
            0 <= i < audio.len() ==> hop(hosts[i], hosts[i + 1], #[trigger] audio[i], out[i]),
        0 <= k <= audio.len(),
    ensures
        hosts[k].spec_zero() == hosts[0].spec_zero(),
        emitted(audio.take(k)) >= 0,
        hosts[k].spec_primed() == (if emitted(audio.take(k)) <= DF_LOOKAHEAD {
            emitted(audio.take(k))
        } else {
            DF_LOOKAHEAD + 1
        }),
    decreases k,
{
    if k > 0 {
        lemma_primed_counts(hosts, audio, out, k - 1);
        assert(hop(hosts[k - 1], hosts[k], audio[k - 1], out[k - 1]));
        assert(audio.take(k).drop_last() =~= audio.take(k - 1));
        assert(audio.take(k).last() == audio[k - 1]);
    }
}

/// From the start of a stream the first hops that are put out, as many as the
/// model looks ahead, are silent whatever went in; every later one is what was
/// made for it. Hops on which the graphs fail put nothing out and do not count.
pub proof fn law_the_first_hops_are_silent<S: Copy, C: Copy>(
    hosts: Seq<Dfn3Denoiser<S, C>>,
    audio: Seq<Option<Seq<S>>>,
    out: Seq<Option<Seq<S>>>,
    k: int,
)
    requires
        hosts.len() == audio.len() + 1,
        out.len() == audio.len(),
        hosts[0].spec_primed() == 0,
        forall|i: int|
            0 <= i < audio.len() ==> hop(hosts[i], hosts[i + 1], #[trigger] audio[i], out[i]),
        0 <= k < audio.len(),
    ensures
        audio[k] is None ==> out[k] is None,
        audio[k] is Some && emitted(audio.take(k)) < DF_LOOKAHEAD ==> out[k] == Some(
            Seq::new(FRAME_SAMPLES as nat, |i: int| hosts[0].spec_zero()),
        ),
        audio[k] is Some && emitted(audio.take(k)) >= DF_LOOKAHEAD ==> out[k] == audio[k],
{
    lemma_primed_counts(hosts, audio, out, k);
    assert(hop(hosts[k], hosts[k + 1], audio[k], out[k]));
}

/// The output lags the input by the look-ahead: what is put out after a hop is
/// made of the spectrum that was observed two hops before it. `before`,
/// `between` and `after` are the histories after three hops in a row.
pub proof fn law_the_output_lags_by_the_look_ahead<C>(
    before: Seq<Vec<C>>,
    between: Seq<Vec<C>>,
    after: Seq<Vec<C>>,
)
    requires
        before.len() == HISTORY,
        slides(before, between),
        slides(between, after),
    ensures
        HISTORY == 7,
        after[EMIT as int] == before.last(),
        EMIT + DF_LOOKAHEAD == HISTORY - 1,
{
    assert(after[4] == after.drop_last()[4]);
    assert(between.drop_first()[4] == between[5]);
    assert(between[5] == between.drop_last()[5]);
    assert(before.drop_first()[5] == before[6]);
}

/// The arithmetic on bins is exact: `re` and `im` are what the two parts of a
/// bin are worth, and `num` what a coefficient is.
pub open spec fn exact_complex<S, C, J: Fn(S, S) -> C, M: Fn(C, C) -> C, A: Fn(C, C) -> C>(
    complex: J,
    times: M,
    plus: A,
    zero: C,
    num: spec_fn(S) -> int,
    re: spec_fn(C) -> int,
    im: spec_fn(C) -> int,
) -> bool {
    &&& re(zero) == 0 && im(zero) == 0
    &&& forall|a: S, b: S, c: C| #[trigger]
        call_ensures(complex, (a, b), c) ==> re(c) == num(a) && im(c) == num(b)
    &&& forall|x: C, y: C, p: C| #[trigger]
        call_ensures(times, (x, y), p) ==> re(p) == re(x) * re(y) - im(x) * im(y) && im(p) == re(x)
            * im(y) + im(x) * re(y)
    &&& forall|x: C, y: C, s: C| #[trigger]
        call_ensures(plus, (x, y), s) ==> re(s) == re(x) + re(y) && im(s) == im(x) + im(y)
}

/// What the filter is: every low bin is the sum, over the newest five frames
/// with the oldest first, of that frame's same bin times the bin's own
/// coefficient for that frame, as complex numbers. Nothing else of the history
/// and no other bin's coefficient counts. At 0 Hz only the real part is left,
/// and above the low bins nothing is changed.
pub proof fn law_the_filter_weighs_each_bins_own_past<
    S,
    C,
    J: Fn(S, S) -> C,
    M: Fn(C, C) -> C,
    A: Fn(C, C) -> C,
    R: Fn(C) -> C,
>(
    spectrum: Seq<C>,
    history: Seq<Vec<C>>,
    coefs: Seq<S>,
    complex: J,
    times: M,
    plus: A,
    real_only: R,
    zero: C,
    out: Seq<C>,
    num: spec_fn(S) -> int,
    re: spec_fn(C) -> int,
    im: spec_fn(C) -> int,
)
    requires
        exact_complex(complex, times, plus, zero, num, re, im),
        forall|c: C, v: C| #[trigger]
            call_ensures(real_only, (c,), v) ==> re(v) == re(c) && im(v) == 0,
        filtered(spectrum, history, coefs, complex, times, plus, real_only, zero, out),
    ensures
        out.len() == spectrum.len(),
        forall|bin: int|
            0 <= bin < 96 ==> re(#[trigger] out[bin]) == crate::dfn_frontend::sum(
                Seq::new(
                    5,
                    |t: int|
                        re(history[2 + t]@[bin]) * num(coefs[10 * bin + 2 * t]) - im(
                            history[2 + t]@[bin],
                        ) * num(coefs[10 * bin + 2 * t + 1]),
                ),
            ),
        forall|bin: int|
            1 <= bin < 96 ==> im(#[trigger] out[bin]) == crate::dfn_frontend::sum(
                Seq::new(
                    5,
                    |t: int|
                        re(history[2 + t]@[bin]) * num(coefs[10 * bin + 2 * t + 1]) + im(
                            history[2 + t]@[bin],
                        ) * num(coefs[10 * bin + 2 * t]),
                ),
            ),
        im(out[0]) == 0,
        forall|bin: int| 96 <= bin < spectrum.len() ==> #[trigger] out[bin] == spectrum[bin],
{
    let dc = choose|dc: C|
        #[trigger] filtered_bin(history, coefs, 0, complex, times, plus, zero, dc) && call_ensures(
            real_only,
            (dc,),
            out[0],
        );
    lemma_filtered_bin_is_a_sum(
        history,
        coefs,
        0,
        complex,
        times,
        plus,
        zero,
        dc,
        num,
        re,
        im,
    );
    assert forall|bin: int| 1 <= bin < 96 implies {
        &&& re(#[trigger] out[bin]) == crate::dfn_frontend::sum(
            Seq::new(
                5,
                |t: int|
                    re(history[2 + t]@[bin]) * num(coefs[10 * bin + 2 * t]) - im(
                        history[2 + t]@[bin],
                    ) * num(coefs[10 * bin + 2 * t + 1]),
            ),
        )
        &&& im(out[bin]) == crate::dfn_frontend::sum(
            Seq::new(
                5,
                |t: int|
                    re(history[2 + t]@[bin]) * num(coefs[10 * bin + 2 * t + 1]) + im(
                        history[2 + t]@[bin],
                    ) * num(coefs[10 * bin + 2 * t]),
            ),
        )
    } by {
        lemma_filtered_bin_is_a_sum(
            history,
            coefs,
            bin,
            complex,
            times,
            plus,
            zero,
            out[bin],
            num,
            re,
            im,
        );
    }
}

proof fn lemma_filtered_bin_is_a_sum<
    S,
    C,
    J: Fn(S, S) -> C,
    M: Fn(C, C) -> C,
    A: Fn(C, C) -> C,
>(
    history: Seq<Vec<C>>,
    coefs: Seq<S>,
    bin: int,
    complex: J,
    times: M,
    plus: A,
    zero: C,
    value: C,
    num: spec_fn(S) -> int,
    re: spec_fn(C) -> int,
    im: spec_fn(C) -> int,
)
    requires
        exact_complex(complex, times, plus, zero, num, re, im),
        filtered_bin(history, coefs, bin, complex, times, plus, zero, value),
    ensures
        re(value) == crate::dfn_frontend::sum(
            Seq::new(
                5,
                |t: int|
                    re(history[2 + t]@[bin]) * num(coefs[10 * bin + 2 * t]) - im(
                        history[2 + t]@[bin],
                    ) * num(coefs[10 * bin + 2 * t + 1]),
            ),
        ),
        im(value) == crate::dfn_frontend::sum(
            Seq::new(
                5,
                |t: int|
                    re(history[2 + t]@[bin]) * num(coefs[10 * bin + 2 * t + 1]) + im(
                        history[2 + t]@[bin],
                    ) * num(coefs[10 * bin + 2 * t]),
            ),
        ),
{
    let acc = choose|acc: Seq<C>|
        {
            &&& #[trigger] acc.len() == DF_ORDER + 1
            &&& acc[0] == zero
            &&& acc[DF_ORDER as int] == value
            &&& forall|t: int|
                0 <= t < DF_ORDER ==> taps(
                    history,
                    coefs,
                    bin,
                    t,
                    complex,
                    times,
                    plus,
                    #[trigger] acc[t],
                    acc[t + 1],
                )
        };
    let parts_re = Seq::new(
        5,
        |t: int|
            re(history[2 + t]@[bin]) * num(coefs[10 * bin + 2 * t]) - im(history[2 + t]@[bin])
                * num(coefs[10 * bin + 2 * t + 1]),
    );
    let parts_im = Seq::new(
        5,
        |t: int|
            re(history[2 + t]@[bin]) * num(coefs[10 * bin + 2 * t + 1]) + im(history[2 + t]@[bin])
                * num(coefs[10 * bin + 2 * t]),
    );
    assert forall|t: int| 0 <= t < 5 implies {
        &&& re(#[trigger] acc[t + 1]) == re(acc[t]) + parts_re[t]
        &&& im(acc[t + 1]) == im(acc[t]) + parts_im[t]
    } by {
        assert(taps(history, coefs, bin, t, complex, times, plus, acc[t], acc[t + 1]));
    }
    assert(re(acc[0 + 1int]) == re(acc[0]) + parts_re[0]);
    assert(re(acc[1 + 1int]) == re(acc[1]) + parts_re[1]);
    assert(re(acc[2 + 1int]) == re(acc[2]) + parts_re[2]);
    assert(re(acc[3 + 1int]) == re(acc[3]) + parts_re[3]);
    assert(re(acc[4 + 1int]) == re(acc[4]) + parts_re[4]);
    lemma_sum_of_five(parts_re);
    lemma_sum_of_five(parts_im);
}

proof fn lemma_sum_of_five(xs: Seq<int>)
    requires
        xs.len() == 5,
    ensures
        crate::dfn_frontend::sum(xs) == xs[0] + xs[1] + xs[2] + xs[3] + xs[4],
{
    reveal_with_fuel(crate::dfn_frontend::sum, 6);
    let a = xs.drop_last();
    let b = a.drop_last();
    let c = b.drop_last();
    let d = c.drop_last();
    assert(d.drop_last().len() == 0);
}

/// Where one tap's coefficient leaves a bin as it is and the others silence it,
/// the filter hands on that tap's frame: each low bin is that same bin of the
/// frame `2 + tap` of the seven, whatever the other bins hold.
pub proof fn law_a_filter_of_one_tap_hands_on_its_frame<
    S,
    C,
    J: Fn(S, S) -> C,
    M: Fn(C, C) -> C,
    A: Fn(C, C) -> C,
    R: Fn(C) -> C,
>(
    spectrum: Seq<C>,
    history: Seq<Vec<C>>,
    coefs: Seq<S>,
    complex: J,
    times: M,
    plus: A,
    real_only: R,
    zero: C,
    out: Seq<C>,
    tap: int,
)
    requires
        0 <= tap < 5,
        filtered(spectrum, history, coefs, complex, times, plus, real_only, zero, out),
        forall|bin: int, t: int, c: C, x: C, p: C|
            0 <= bin < 96 && 0 <= t < 5 && #[trigger] call_ensures(
                complex,
                (coefs[10 * bin + 2 * t], coefs[10 * bin + 2 * t + 1]),
                c,
            ) && #[trigger] call_ensures(times, (x, c), p) ==> p == if t == tap {
                x
            } else {
                zero
            },
        forall|x: C, s: C| #[trigger] call_ensures(plus, (x, zero), s) ==> s == x,
        forall|x: C, s: C| #[trigger] call_ensures(plus, (zero, x), s) ==> s == x,
    ensures
        forall|bin: int|
            1 <= bin < 96 ==> #[trigger] out[bin] == history[2 + tap]@[bin],
        call_ensures(real_only, (history[2 + tap]@[0],), out[0]),
{
    let dc = choose|dc: C|
        #[trigger] filtered_bin(history, coefs, 0, complex, times, plus, zero, dc) && call_ensures(
            real_only,
            (dc,),
            out[0],
        );
    lemma_one_tap(history, coefs, 0, complex, times, plus, zero, dc, tap);
    assert forall|bin: int| 1 <= bin < 96 implies #[trigger] out[bin] == history[2
        + tap]@[bin] by {
        lemma_one_tap(history, coefs, bin, complex, times, plus, zero, out[bin], tap);
    }
}

proof fn lemma_one_tap<S, C, J: Fn(S, S) -> C, M: Fn(C, C) -> C, A: Fn(C, C) -> C>(
    history: Seq<Vec<C>>,
    coefs: Seq<S>,
    bin: int,
    complex: J,
    times: M,
    plus: A,
    zero: C,
    value: C,
    tap: int,
)
    requires
        0 <= tap < 5,
        0 <= bin < 96,
        filtered_bin(history, coefs, bin, complex, times, plus, zero, value),
        forall|b: int, t: int, c: C, x: C, p: C|
            0 <= b < 96 && 0 <= t < 5 && #[trigger] call_ensures(
                complex,
                (coefs[10 * b + 2 * t], coefs[10 * b + 2 * t + 1]),
                c,
            ) && #[trigger] call_ensures(times, (x, c), p) ==> p == if t == tap {
                x
            } else {
                zero
            },
        forall|x: C, s: C| #[trigger] call_ensures(plus, (x, zero), s) ==> s == x,
        forall|x: C, s: C| #[trigger] call_ensures(plus, (zero, x), s) ==> s == x,
    ensures
        value == history[2 + tap]@[bin],
{
    let acc = choose|acc: Seq<C>|
        {
            &&& #[trigger] acc.len() == DF_ORDER + 1
            &&& acc[0] == zero
            &&& acc[DF_ORDER as int] == value
            &&& forall|t: int|
                0 <= t < DF_ORDER ==> taps(
                    history,
                    coefs,
                    bin,
                    t,
                    complex,
                    times,
                    plus,
                    #[trigger] acc[t],
                    acc[t + 1],
                )
        };
    lemma_one_tap_so_far(history, coefs, bin, complex, times, plus, zero, acc, tap, 5);
}

proof fn lemma_one_tap_so_far<S, C, J: Fn(S, S) -> C, M: Fn(C, C) -> C, A: Fn(C, C) -> C>(
    history: Seq<Vec<C>>,
    coefs: Seq<S>,
    bin: int,
    complex: J,
    times: M,
    plus: A,
    zero: C,
    acc: Seq<C>,
    tap: int,
    n: int,
)
    requires
        0 <= tap < 5,
        0 <= bin < 96,
        0 <= n <= 5,
        acc.len() == 6,
        acc[0] == zero,
        forall|t: int|
            0 <= t < 5 ==> taps(
                history,
                coefs,
                bin,
                t,
                complex,
                times,
                plus,
                #[trigger] acc[t],
                acc[t + 1],
            ),
        forall|b: int, t: int, c: C, x: C, p: C|
            0 <= b < 96 && 0 <= t < 5 && #[trigger] call_ensures(
                complex,
                (coefs[10 * b + 2 * t], coefs[10 * b + 2 * t + 1]),
                c,
            ) && #[trigger] call_ensures(times, (x, c), p) ==> p == if t == tap {
                x
            } else {
                zero
            },
        forall|x: C, s: C| #[trigger] call_ensures(plus, (x, zero), s) ==> s == x,
        forall|x: C, s: C| #[trigger] call_ensures(plus, (zero, x), s) ==> s == x,
    ensures
        acc[n] == if n <= tap {
            zero
        } else {
            history[2 + tap]@[bin]
        },
    decreases n,
{
    if n > 0 {
        let t = n - 1;
        lemma_one_tap_so_far(history, coefs, bin, complex, times, plus, zero, acc, tap, t);
        assert(taps(history, coefs, bin, t, complex, times, plus, acc[t], acc[t + 1]));
        let base = (bin * DF_ORDER + t) * 2;
        assert(base == 10 * bin + 2 * t);
        let (c, p) = choose|c: C, p: C|
            {
                &&& #[trigger] call_ensures(complex, (coefs[base], coefs[base + 1]), c)
                &&& #[trigger] call_ensures(times, (history[HISTORY - DF_ORDER + t]@[bin], c), p)
                &&& call_ensures(plus, (acc[t], p), acc[t + 1])
            };
        assert(call_ensures(
            complex,
            (coefs[10 * bin + 2 * t], coefs[10 * bin + 2 * t + 1]),
            c,
        ));
        assert(p == if t == tap {
            history[2 + t]@[bin]
        } else {
            zero
        });
    }
}

/// Every bin lies in a band.
proof fn lemma_band_of_a_bin(widths: Seq<usize>, n: int, k: int) -> (b: int)
    requires
        0 <= n <= widths.len(),
        0 <= k < crate::dfn_frontend::sum(crate::dfn_frontend::as_ints(widths).take(n)),
    ensures
        0 <= b < n,
        crate::dfn_frontend::band_start(widths, b) <= k < crate::dfn_frontend::band_start(
            widths,
            b,
        ) + widths[b],
    decreases n,
{
    let all = crate::dfn_frontend::as_ints(widths);
    if n == 0 {
        assert(all.take(0) =~= Seq::<int>::empty());
        0
    } else {
        assert(all.take(n).drop_last() =~= all.take(n - 1));
        assert(all.take(n).last() == widths[n - 1]);
        if k < crate::dfn_frontend::sum(all.take(n - 1)) {
            lemma_band_of_a_bin(widths, n - 1, k)
        } else {
            n - 1
        }
    }
}

/// A band's gain scales the bins of that band, each of them alike and no others.
/// The bins of band `b` are those from where the bands before it end to where it
/// ends itself. A bin of a band without a gain keeps its value.
pub proof fn law_a_gain_scales_its_own_band<S, C, K: Fn(C, S) -> C>(
    spectrum: Seq<C>,
    widths: Seq<usize>,
    gains: Seq<S>,
    scale: K,
    out: Seq<C>,
    num: spec_fn(S) -> int,
    re: spec_fn(C) -> int,
    im: spec_fn(C) -> int,
)
    requires
        forall|c: C, g: S, v: C| #[trigger]
            call_ensures(scale, (c, g), v) ==> re(v) == re(c) * num(g) && im(v) == im(c) * num(g),
        crate::dfn_frontend::sum(crate::dfn_frontend::as_ints(widths)) == spectrum.len(),
        gained(spectrum, widths, gains, scale, out),
    ensures
        out.len() == spectrum.len(),
        forall|b: int, k: int|
            #![trigger widths[b], out[k]]
            0 <= b < widths.len() && crate::dfn_frontend::sum(
                crate::dfn_frontend::as_ints(widths).take(b),
            ) <= k < crate::dfn_frontend::sum(crate::dfn_frontend::as_ints(widths).take(b + 1))
                ==> if b < gains.len() {
                re(out[k]) == re(spectrum[k]) * num(gains[b]) && im(out[k]) == im(spectrum[k])
                    * num(gains[b])
            } else {
                out[k] == spectrum[k]
            },
{
    assert forall|b: int, k: int|
        #![trigger widths[b], out[k]]
        0 <= b < widths.len() && crate::dfn_frontend::sum(
            crate::dfn_frontend::as_ints(widths).take(b),
        ) <= k < crate::dfn_frontend::sum(
            crate::dfn_frontend::as_ints(widths).take(b + 1),
        ) implies if b < gains.len() {
        re(out[k]) == re(spectrum[k]) * num(gains[b]) && im(out[k]) == im(spectrum[k]) * num(
            gains[b],
        )
    } else {
        out[k] == spectrum[k]
    } by {
        crate::dfn_frontend::lemma_band_start(widths, b);
        assert(crate::dfn_frontend::band_start(widths, b) <= k
            < crate::dfn_frontend::band_start(widths, b) + widths[b]);
    }
}

/// Gains that leave every bin as it is leave the spectrum as it is.
pub proof fn law_gains_of_one_change_nothing<S, C, K: Fn(C, S) -> C>(
    spectrum: Seq<C>,
    widths: Seq<usize>,
    gains: Seq<S>,
    scale: K,
    out: Seq<C>,
)
    requires
        forall|b: int, c: C, v: C|
            0 <= b < gains.len() && #[trigger] call_ensures(scale, (c, gains[b]), v) ==> v == c,
        crate::dfn_frontend::sum(crate::dfn_frontend::as_ints(widths)) == spectrum.len(),
        gained(spectrum, widths, gains, scale, out),
    ensures
        out == spectrum,
{
    let all = crate::dfn_frontend::as_ints(widths);
    assert(all.take(widths.len() as int) =~= all);
    assert forall|k: int| 0 <= k < spectrum.len() implies #[trigger] out[k] == spectrum[k] by {
        let b = lemma_band_of_a_bin(widths, widths.len() as int, k);
        assert(crate::dfn_frontend::band_start(widths, b) <= k);
    }
    assert(out =~= spectrum);
}

/// What the graphs are given of the low bins: place `i` of the planes is the
/// real part of bin `i`, normalised, and place `96 + i` its imaginary part.
pub proof fn law_the_planes_hold_both_parts_of_every_bin<
    S,
    C,
    X: Fn(C) -> S,
    Y: Fn(C) -> S,
>(bins: Seq<C>, re: X, im: Y, planes: Seq<S>, real_of: spec_fn(C) -> S, imag_of: spec_fn(C) -> S)
    requires
        forall|c: C, v: S| #[trigger] call_ensures(re, (c,), v) ==> v == real_of(c),
        forall|c: C, v: S| #[trigger] call_ensures(im, (c,), v) ==> v == imag_of(c),
        in_planes(bins, re, im, planes),
    ensures
        planes == bins.map_values(real_of) + bins.map_values(imag_of),
        planes.len() == 192,
{
    assert forall|i: int| 0 <= i < 192 implies #[trigger] planes[i] == (bins.map_values(real_of)
        + bins.map_values(imag_of))[i] by {
        if i < 96 {
            assert(call_ensures(re, (bins[i],), planes[i]));
        } else {
            assert(call_ensures(im, (bins[i - 96],), planes[i]));
        }
    }
    assert(planes =~= bins.map_values(real_of) + bins.map_values(imag_of));
}

/// A hop went through the host with gains and no filter, and `out` was put out.
pub open spec fn goes_through<
    S: Copy,
    C: Copy,
    F: Fn(Vec<S>) -> Vec<C>,
    M: Fn(S, S) -> S,
    K: Fn(C) -> C,
    G: Fn(C, S) -> C,
    J: Fn(S, S) -> C,
    T: Fn(C, C) -> C,
    B: Fn(C, C) -> C,
    R: Fn(C) -> C,
    I: Fn(Vec<C>) -> Vec<S>,
    P: Fn(S, S) -> S,
>(
    before: Dfn3Denoiser<S, C>,
    between: Dfn3Denoiser<S, C>,
    after: Dfn3Denoiser<S, C>,
    hop: Seq<S>,
    gains: Seq<S>,
    out: Seq<S>,
    fft: F,
    times: M,
    scale: K,
    gain: G,
    complex: J,
    ctimes: T,
    cplus: B,
    real_only: R,
    zero_bin: C,
    ifft: I,
    plus: P,
) -> bool {
    &&& hop.len() == FRAME_SAMPLES
    &&& between.wf()
    &&& after.wf()
    &&& listens(before, between, hop, fft, times, scale)
    &&& speaks(between, after)
    &&& exists|masked: Seq<C>, target: Vec<C>, raw: Vec<S>, block: Seq<S>, audio: Seq<S>| #[trigger]
        between.emission(
            after.spec_front().tail(),
            gains,
            None,
            gain,
            complex,
            ctimes,
            cplus,
            real_only,
            zero_bin,
            ifft,
            times,
            plus,
            masked,
            target,
            raw,
            block,
            audio,
            out,
        )
}

/// One hop of a delay: what was put together of the frame that was emitted.
proof fn lemma_untouched_emission<
    S: Copy,
    C: Copy,
    M: Fn(S, S) -> S,
    G: Fn(C, S) -> C,
    J: Fn(S, S) -> C,
    T: Fn(C, C) -> C,
    B: Fn(C, C) -> C,
    R: Fn(C) -> C,
    I: Fn(Vec<C>) -> Vec<S>,
    P: Fn(S, S) -> S,
>(
    host: Dfn3Denoiser<S, C>,
    tail_after: Seq<S>,
    gains: Seq<S>,
    out: Seq<S>,
    times: M,
    gain: G,
    complex: J,
    ctimes: T,
    cplus: B,
    real_only: R,
    zero_bin: C,
    ifft: I,
    plus: P,
) -> (r: (Vec<C>, Seq<S>))
    requires
        host.wf(),
        forall|b: int, c: C, v: C|
            0 <= b < gains.len() && #[trigger] call_ensures(gain, (c, gains[b]), v) ==> v == c,
        exists|masked: Seq<C>, target: Vec<C>, raw: Vec<S>, block: Seq<S>, audio: Seq<S>|
            #[trigger] host.emission(
                tail_after,
                gains,
                None,
                gain,
                complex,
                ctimes,
                cplus,
                real_only,
                zero_bin,
                ifft,
                times,
                plus,
                masked,
                target,
                raw,
                block,
                audio,
                out,
            ),
    ensures
        r.0@ == host.history()[4]@,
        crate::dfn_frontend::synthesises(
            r.0,
            host.spec_front().spec_window(),
            ifft,
            times,
            plus,
            host.spec_front().spec_zero(),
            host.spec_front().tail(),
            r.1,
            tail_after,
        ),
        host.spec_primed() >= 2 ==> out == r.1,
{
    let (masked, target, raw, block, audio) = choose|
        masked: Seq<C>,
        target: Vec<C>,
        raw: Vec<S>,
        block: Seq<S>,
        audio: Seq<S>,
    | #[trigger]
        host.emission(
            tail_after,
            gains,
            None,
            gain,
            complex,
            ctimes,
            cplus,
            real_only,
            zero_bin,
            ifft,
            times,
            plus,
            masked,
            target,
            raw,
            block,
            audio,
            out,
        );
    crate::dfn_frontend::law_the_bands_cover_every_bin();
    law_gains_of_one_change_nothing(
        host.history()[EMIT as int]@,
        host.spec_erb(),
        gains,
        gain,
        masked,
    );
    assert(crate::dfn_frontend::weighted(
        raw@,
        host.spec_front().spec_window(),
        times,
        block,
    ));
    (target, audio)
}

proof fn lemma_through_keeps_the_setup<
    S: Copy,
    C: Copy,
    F: Fn(Vec<S>) -> Vec<C>,
    M: Fn(S, S) -> S,
    K: Fn(C) -> C,
    G: Fn(C, S) -> C,
    J: Fn(S, S) -> C,
    T: Fn(C, C) -> C,
    B: Fn(C, C) -> C,
    R: Fn(C) -> C,
    I: Fn(Vec<C>) -> Vec<S>,
    P: Fn(S, S) -> S,
>(
    hosts: Seq<Dfn3Denoiser<S, C>>,
    betweens: Seq<Dfn3Denoiser<S, C>>,
    hops: Seq<Seq<S>>,
    gains: Seq<Seq<S>>,
    outs: Seq<Seq<S>>,
    fft: F,
    times: M,
    scale: K,
    gain: G,
    complex: J,
    ctimes: T,
    cplus: B,
    real_only: R,
    zero_bin: C,
    ifft: I,
    plus: P,
    k: int,
)
    requires
        0 <= k <= hops.len(),
        hosts[0].wf(),
        forall|i: int|
            0 <= i < hops.len() ==> goes_through(
                hosts[i],
                betweens[i],
                hosts[i + 1],
                #[trigger] hops[i],
                gains[i],
                outs[i],
                fft,
                times,
                scale,
                gain,
                complex,
                ctimes,
                cplus,
                real_only,
                zero_bin,
                ifft,
                plus,
            ),
    ensures
        hosts[k].wf(),
        hosts[k].spec_front().same_setup(&hosts[0].spec_front()),
        hosts[k].spec_primed() >= if k <= 2 {
            k
        } else {
            2
        },
    decreases k,
{
    if k > 0 {
        lemma_through_keeps_the_setup(
            hosts,
            betweens,
            hops,
            gains,
            outs,
            fft,
            times,
            scale,
            gain,
            complex,
            ctimes,
            cplus,
            real_only,
            zero_bin,
            ifft,
            plus,
            k - 1,
        );
        let hop = hops[k - 1];
    }
}

/// What the host is for, with nothing to clean: where the gains leave every bin
/// as it is, the filter is off, the transform back undoes the transform and the
/// window overlaps to one, the host hands on what it hears, sample for sample,
/// three hops late: one for the overlap and two for the look-ahead.
pub proof fn law_with_nothing_to_clean_the_host_is_a_delay<
    S: Copy,
    C: Copy,
    F: Fn(Vec<S>) -> Vec<C>,
    M: Fn(S, S) -> S,
    K: Fn(C) -> C,
    G: Fn(C, S) -> C,
    J: Fn(S, S) -> C,
    T: Fn(C, C) -> C,
    B: Fn(C, C) -> C,
    R: Fn(C) -> C,
    I: Fn(Vec<C>) -> Vec<S>,
    P: Fn(S, S) -> S,
>(
    hosts: Seq<Dfn3Denoiser<S, C>>,
    betweens: Seq<Dfn3Denoiser<S, C>>,
    hops: Seq<Seq<S>>,
    gains: Seq<Seq<S>>,
    outs: Seq<Seq<S>>,
    fft: F,
    times: M,
    scale: K,
    gain: G,
    complex: J,
    ctimes: T,
    cplus: B,
    real_only: R,
    zero_bin: C,
    ifft: I,
    plus: P,
    k: int,
)
    requires
        3 <= k < hops.len(),
        hosts[0].wf(),
        crate::dfn_frontend::inverts(fft, scale, ifft),
        crate::dfn_frontend::overlaps_to_one(
            hosts[0].spec_front().spec_window(),
            times,
            plus,
            hosts[0].spec_front().spec_zero(),
        ),
        forall|i: int, b: int, c: C, v: C|
            0 <= i < hops.len() && 0 <= b < gains[i].len() && #[trigger] call_ensures(
                gain,
                (c, gains[i][b]),
                v,
            ) ==> v == c,
        forall|i: int|
            0 <= i < hops.len() ==> goes_through(
                hosts[i],
                betweens[i],
                hosts[i + 1],
                #[trigger] hops[i],
                gains[i],
                outs[i],
                fft,
                times,
                scale,
                gain,
                complex,
                ctimes,
                cplus,
                real_only,
                zero_bin,
                ifft,
                plus,
            ),
    ensures
        outs[k] == hops[k - 3],
{
    assert forall|i: int| 0 <= i <= hops.len() implies {
        &&& (#[trigger] hosts[i]).wf()
        &&& hosts[i].spec_front().same_setup(&hosts[0].spec_front())
        &&& hosts[i].spec_primed() >= if i <= 2 {
            i
        } else {
            2
        }
    } by {
        lemma_through_keeps_the_setup(
            hosts,
            betweens,
            hops,
            gains,
            outs,
            fft,
            times,
            scale,
            gain,
            complex,
            ctimes,
            cplus,
            real_only,
            zero_bin,
            ifft,
            plus,
            i,
        );
    }
    let (h3, h2, h1, h0) = (hops[k - 3], hops[k - 2], hops[k - 1], hops[k]);
    let (a, b, c, d) = (hosts[k - 3], hosts[k - 2], hosts[k - 1], hosts[k]);
    let (ma, mb, mc, md) = (betweens[k - 3], betweens[k - 2], betweens[k - 1], betweens[k]);
    law_the_output_lags_by_the_look_ahead(ma.history(), mb.history(), mc.history());
    law_the_output_lags_by_the_look_ahead(mb.history(), mc.history(), md.history());
    let (target1, audio1) = lemma_untouched_emission(
        mc,
        d.spec_front().tail(),
        gains[k - 1],
        outs[k - 1],
        times,
        gain,
        complex,
        ctimes,
        cplus,
        real_only,
        zero_bin,
        ifft,
        plus,
    );
    let (target2, audio2) = lemma_untouched_emission(
        md,
        hosts[k + 1].spec_front().tail(),
        gains[k],
        outs[k],
        times,
        gain,
        complex,
        ctimes,
        cplus,
        real_only,
        zero_bin,
        ifft,
        plus,
    );
    crate::dfn_frontend::lemma_overlap_restores(
        a.spec_front().spec_window(),
        a.spec_front().spec_zero(),
        a.spec_front().memory(),
        h3,
        h2,
        target1,
        target2,
        mc.spec_front().tail(),
        md.spec_front().tail(),
        hosts[k + 1].spec_front().tail(),
        audio1,
        audio2,
        fft,
        times,
        scale,
        ifft,
        plus,
    );
}

/// With the filter on, what goes back to audio is this: the low bins are the
/// filter's, made of the history as it was heard and not as the gains left it;
/// every bin above them is that of the frame two hops back, times the gain of
/// its band.
pub proof fn law_low_bins_are_filtered_and_the_others_scaled<
    S: Copy,
    C: Copy,
    G: Fn(C, S) -> C,
    J: Fn(S, S) -> C,
    M: Fn(C, C) -> C,
    A: Fn(C, C) -> C,
    R: Fn(C) -> C,
    I: Fn(Vec<C>) -> Vec<S>,
    W: Fn(S, S) -> S,
    P: Fn(S, S) -> S,
>(
    host: Dfn3Denoiser<S, C>,
    tail_after: Seq<S>,
    gains: Seq<S>,
    coefs: Vec<S>,
    gain: G,
    complex: J,
    times: M,
    plus: A,
    real_only: R,
    zero_bin: C,
    ifft: I,
    weight: W,
    overlap: P,
    masked: Seq<C>,
    target: Vec<C>,
    raw: Vec<S>,
    block: Seq<S>,
    audio: Seq<S>,
    r: Seq<S>,
    num: spec_fn(S) -> int,
    re: spec_fn(C) -> int,
    im: spec_fn(C) -> int,
)
    requires
        host.wf(),
        exact_complex(complex, times, plus, zero_bin, num, re, im),
        forall|c: C, v: C| #[trigger]
            call_ensures(real_only, (c,), v) ==> re(v) == re(c) && im(v) == 0,
        forall|c: C, g: S, v: C| #[trigger]
            call_ensures(gain, (c, g), v) ==> re(v) == re(c) * num(g) && im(v) == im(c) * num(g),
        host.emission(
            tail_after,
            gains,
            Some(coefs),
            gain,
            complex,
            times,
            plus,
            real_only,
            zero_bin,
            ifft,
            weight,
            overlap,
            masked,
            target,
            raw,
            block,
            audio,
            r,
        ),
    ensures
        call_ensures(ifft, (target,), raw),
        target@.len() == 481,
        forall|bin: int|
            0 <= bin < 96 ==> re(#[trigger] target@[bin]) == crate::dfn_frontend::sum(
                Seq::new(
                    5,
                    |t: int|
                        re(host.history()[2 + t]@[bin]) * num(coefs@[10 * bin + 2 * t]) - im(
                            host.history()[2 + t]@[bin],
                        ) * num(coefs@[10 * bin + 2 * t + 1]),
                ),
            ),
        forall|b: int, bin: int|
            #![trigger host.spec_erb()[b], target@[bin]]
            0 <= b < 32 && b < gains.len() && 96 <= bin && crate::dfn_frontend::sum(
                crate::dfn_frontend::as_ints(host.spec_erb()).take(b),
            ) <= bin < crate::dfn_frontend::sum(
                crate::dfn_frontend::as_ints(host.spec_erb()).take(b + 1),
            ) ==> re(target@[bin]) == re(host.history()[4]@[bin]) * num(gains[b]) && im(
                target@[bin],
            ) == im(host.history()[4]@[bin]) * num(gains[b]),
{
    crate::dfn_frontend::law_the_bands_cover_every_bin();
    law_a_gain_scales_its_own_band(
        host.history()[EMIT as int]@,
        host.spec_erb(),
        gains,
        gain,
        masked,
        num,
        re,
        im,
    );
    law_the_filter_weighs_each_bins_own_past(
        masked,
        host.history(),
        coefs@,
        complex,
        times,
        plus,
        real_only,
        zero_bin,
        target@,
        num,
        re,
        im,
    );
    assert(host.spec_erb().len() == 32);
    let all = crate::dfn_frontend::as_ints(host.spec_erb());
    assert forall|b: int, bin: int|
        #![trigger host.spec_erb()[b], target@[bin]]
        0 <= b < 32 && b < gains.len() && 96 <= bin && crate::dfn_frontend::sum(all.take(b)) <= bin
            < crate::dfn_frontend::sum(all.take(b + 1)) implies re(target@[bin]) == re(
        host.history()[4]@[bin],
    ) * num(gains[b]) && im(target@[bin]) == im(host.history()[4]@[bin]) * num(gains[b]) by {
        lemma_bands_end_in_the_spectrum(host.spec_erb(), b + 1);
        assert(target@[bin] == masked[bin]);
    }
}

proof fn lemma_bands_end_in_the_spectrum(widths: Seq<usize>, n: int)
    requires
        0 <= n <= widths.len(),
    ensures
        crate::dfn_frontend::sum(crate::dfn_frontend::as_ints(widths).take(n))
            <= crate::dfn_frontend::sum(crate::dfn_frontend::as_ints(widths)),
    decreases widths.len() - n,
{
    let all = crate::dfn_frontend::as_ints(widths);
    if n == widths.len() {
        assert(all.take(n) =~= all);
    } else {
        lemma_bands_end_in_the_spectrum(widths, n + 1);
        assert(all.take(n + 1).drop_last() =~= all.take(n));
        assert(all.take(n + 1).last() == widths[n]);
    }
}

/// Bins do not mix in the filter: a low bin follows from that bin of the newest
/// five frames and from its own coefficients, where the arithmetic is a function
/// of what it is given. Whatever the other bins, the older frames and the other
/// coefficients are makes no difference to it.
pub proof fn law_bins_are_filtered_apart<
    S,
    C,
    J: Fn(S, S) -> C,
    M: Fn(C, C) -> C,
    A: Fn(C, C) -> C,
    R: Fn(C) -> C,
>(
    spectrum: Seq<C>,
    other_spectrum: Seq<C>,
    history: Seq<Vec<C>>,
    other_history: Seq<Vec<C>>,
    coefs: Seq<S>,
    other_coefs: Seq<S>,
    complex: J,
    times: M,
    plus: A,
    real_only: R,
    zero: C,
    out: Seq<C>,
    other_out: Seq<C>,
    bin: int,
)
    requires
        0 <= bin < 96,
        forall|x: S, y: S, u: C, v: C| #[trigger]
            call_ensures(complex, (x, y), u) && #[trigger] call_ensures(complex, (x, y), v) ==> u
                == v,
        forall|x: C, y: C, u: C, v: C| #[trigger]
            call_ensures(times, (x, y), u) && #[trigger] call_ensures(times, (x, y), v) ==> u == v,
        forall|x: C, y: C, u: C, v: C| #[trigger]
            call_ensures(plus, (x, y), u) && #[trigger] call_ensures(plus, (x, y), v) ==> u == v,
        forall|x: C, u: C, v: C| #[trigger]
            call_ensures(real_only, (x,), u) && #[trigger] call_ensures(real_only, (x,), v) ==> u
                == v,
        filtered(spectrum, history, coefs, complex, times, plus, real_only, zero, out),
        filtered(
            other_spectrum,
            other_history,
            other_coefs,
            complex,
            times,
            plus,
            real_only,
            zero,
            other_out,
        ),
        forall|t: int|
            0 <= t < 5 ==> #[trigger] history[2 + t]@[bin] == other_history[2 + t]@[bin],
        forall|i: int| 10 * bin <= i < 10 * bin + 10 ==> #[trigger] coefs[i] == other_coefs[i],
    ensures
        out[bin] == other_out[bin],
{
    if bin == 0 {
        let dc = choose|dc: C|
            #[trigger] filtered_bin(history, coefs, 0, complex, times, plus, zero, dc)
                && call_ensures(real_only, (dc,), out[0]);
        let other_dc = choose|dc: C|
            #[trigger] filtered_bin(other_history, other_coefs, 0, complex, times, plus, zero, dc)
                && call_ensures(real_only, (dc,), other_out[0]);
        lemma_filtered_alike(
            history,
            other_history,
            coefs,
            other_coefs,
            0,
            complex,
            times,
            plus,
            zero,
            dc,
            other_dc,
        );
    } else {
        lemma_filtered_alike(
            history,
            other_history,
            coefs,
            other_coefs,
            bin,
            complex,
            times,
            plus,
            zero,
            out[bin],
            other_out[bin],
        );
    }
}

proof fn lemma_filtered_alike<S, C, J: Fn(S, S) -> C, M: Fn(C, C) -> C, A: Fn(C, C) -> C>(
    history: Seq<Vec<C>>,
    other_history: Seq<Vec<C>>,
    coefs: Seq<S>,
    other_coefs: Seq<S>,
    bin: int,
    complex: J,
    times: M,
    plus: A,
    zero: C,
    value: C,
    other: C,
)
    requires
        0 <= bin < 96,
        forall|x: S, y: S, u: C, v: C| #[trigger]
            call_ensures(complex, (x, y), u) && #[trigger] call_ensures(complex, (x, y), v) ==> u
                == v,
        forall|x: C, y: C, u: C, v: C| #[trigger]
            call_ensures(times, (x, y), u) && #[trigger] call_ensures(times, (x, y), v) ==> u == v,
        forall|x: C, y: C, u: C, v: C| #[trigger]
            call_ensures(plus, (x, y), u) && #[trigger] call_ensures(plus, (x, y), v) ==> u == v,
        filtered_bin(history, coefs, bin, complex, times, plus, zero, value),
        filtered_bin(other_history, other_coefs, bin, complex, times, plus, zero, other),
        forall|t: int|
            0 <= t < 5 ==> #[trigger] history[2 + t]@[bin] == other_history[2 + t]@[bin],
        forall|i: int| 10 * bin <= i < 10 * bin + 10 ==> #[trigger] coefs[i] == other_coefs[i],
    ensures
        value == other,
{
    let a = choose|acc: Seq<C>|
        {
            &&& #[trigger] acc.len() == DF_ORDER + 1
            &&& acc[0] == zero
            &&& acc[DF_ORDER as int] == value
            &&& forall|t: int|
                0 <= t < DF_ORDER ==> taps(
                    history,
                    coefs,
                    bin,
                    t,
                    complex,
                    times,
                    plus,
                    #[trigger] acc[t],
                    acc[t + 1],
                )
        };
    let b = choose|acc: Seq<C>|
        {
            &&& #[trigger] acc.len() == DF_ORDER + 1
            &&& acc[0] == zero
            &&& acc[DF_ORDER as int] == other
            &&& forall|t: int|
                0 <= t < DF_ORDER ==> taps(
                    other_history,
                    other_coefs,
                    bin,
                    t,
                    complex,
                    times,
                    plus,
                    #[trigger] acc[t],
                    acc[t + 1],
                )
        };
    lemma_taps_alike(
        history,
        other_history,
        coefs,
        other_coefs,
        bin,
        complex,
        times,
        plus,
        a,
        b,
        5,
    );
}

proof fn lemma_taps_alike<S, C, J: Fn(S, S) -> C, M: Fn(C, C) -> C, A: Fn(C, C) -> C>(
    history: Seq<Vec<C>>,
    other_history: Seq<Vec<C>>,
    coefs: Seq<S>,
    other_coefs: Seq<S>,
    bin: int,
    complex: J,
    times: M,
    plus: A,
    a: Seq<C>,
    b: Seq<C>,
    n: int,
)
    requires
        0 <= n <= 5,
        0 <= bin < 96,
        a[0] == b[0],
        forall|x: S, y: S, u: C, v: C| #[trigger]
            call_ensures(complex, (x, y), u) && #[trigger] call_ensures(complex, (x, y), v) ==> u
                == v,
        forall|x: C, y: C, u: C, v: C| #[trigger]
            call_ensures(times, (x, y), u) && #[trigger] call_ensures(times, (x, y), v) ==> u == v,
        forall|x: C, y: C, u: C, v: C| #[trigger]
            call_ensures(plus, (x, y), u) && #[trigger] call_ensures(plus, (x, y), v) ==> u == v,
        forall|t: int|
            0 <= t < DF_ORDER ==> taps(
                history,
                coefs,
                bin,
                t,
                complex,
                times,
                plus,
                #[trigger] a[t],
                a[t + 1],
            ),
        forall|t: int|
            0 <= t < DF_ORDER ==> taps(
                other_history,
                other_coefs,
                bin,
                t,
                complex,
                times,
                plus,
                #[trigger] b[t],
                b[t + 1],
            ),
        forall|t: int|
            0 <= t < 5 ==> #[trigger] history[2 + t]@[bin] == other_history[2 + t]@[bin],
        forall|i: int| 10 * bin <= i < 10 * bin + 10 ==> #[trigger] coefs[i] == other_coefs[i],
    ensures
        a[n] == b[n],
    decreases n,
{
    if n > 0 {
        let t = n - 1;
        lemma_taps_alike(
            history,
            other_history,
            coefs,
            other_coefs,
            bin,
            complex,
            times,
            plus,
            a,
            b,
            t,
        );
        assert(taps(history, coefs, bin, t, complex, times, plus, a[t], a[t + 1]));
        assert(taps(other_history, other_coefs, bin, t, complex, times, plus, b[t], b[t + 1]));
        let base = (bin * DF_ORDER + t) * 2;
        assert(coefs[base] == other_coefs[base]);
        assert(coefs[base + 1] == other_coefs[base + 1]);
        assert(history[2 + t]@[bin] == other_history[2 + t]@[bin]);
    }
}

} // verus!
