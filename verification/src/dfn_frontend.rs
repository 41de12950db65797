//! DeepFilterNet's front end: overlapping blocks, bands on the ERB scale, and
//! features normalised against their own past.
//!
//! The transform itself and the arithmetic on samples and bins come from the
//! caller. What lies between is here: which samples make up a block, which bins
//! make up a band, what is carried from one hop to the next.
use vstd::prelude::*;

use crate::{Frame, FRAME_SAMPLES};

verus! {

/// Samples per second.
pub const SR: usize = 48_000;

/// Samples in a transformed block.
pub const FFT_SIZE: usize = 960;

/// Samples that each block moves on by.
pub const HOP: usize = 480;

/// Frequency bins of a block.
pub const FREQ_BINS: usize = 481;

/// Bands on the ERB scale.
pub const NB_ERB: usize = 32;

/// The lowest bins, which the deep filter works on.
pub const NB_DF: usize = 96;

/// A band has at least this many bins, so that the lowest ones are not empty.
pub const MIN_NB_FREQS: i32 = 2;

/// The upper edges of 32 bands that are equally wide on the ERB scale between
/// 0 and 24 kHz, in bins of 50 Hz, each rounded to the nearest bin.
pub open spec fn erb_edges() -> Seq<i32> {
    seq![
        1i32, 2i32, 3i32, 4i32, 5i32, 6i32, 8i32, 10i32,
        12i32, 15i32, 18i32, 22i32, 26i32, 31i32, 36i32, 43i32,
        50i32, 58i32, 68i32, 80i32, 93i32, 108i32, 126i32, 146i32,
        170i32, 198i32, 229i32, 266i32, 308i32, 358i32, 414i32, 480i32,
    ]
}

/// The widths of the first `n` bands, and how many bins they took from the
/// bands after them: a band that would be narrower than two bins borrows the
/// rest from the next.
pub open spec fn band_widths(edges: Seq<i32>, n: nat) -> (Seq<int>, int)
    decreases n,
{
    if n == 0 {
        (Seq::empty(), 0)
    } else {
        let (widths, borrowed) = band_widths(edges, (n - 1) as nat);
        let below = if n == 1 {
            0
        } else {
            edges[n - 2] as int
        };
        let own = edges[n - 1] - below - borrowed;
        if own < MIN_NB_FREQS {
            (widths.push(MIN_NB_FREQS as int), MIN_NB_FREQS - own)
        } else {
            (widths.push(own), 0)
        }
    }
}

/// What the numbers add up to.
pub open spec fn sum(xs: Seq<int>) -> int
    decreases xs.len(),
{
    if xs.len() == 0 {
        0
    } else {
        sum(xs.drop_last()) + xs.last()
    }
}

/// Borrowing moves bins between neighbours and loses none: the first bands
/// together reach exactly as far as their last edge and what they borrowed.
proof fn lemma_band_widths(edges: Seq<i32>, n: nat)
    requires
        n <= edges.len(),
        forall|i: int, j: int| 0 <= i <= j < edges.len() ==> 0 <= #[trigger] edges[i] <= #[trigger] edges[j],
    ensures
        band_widths(edges, n).0.len() == n,
        0 <= band_widths(edges, n).1 <= MIN_NB_FREQS * n,
        sum(band_widths(edges, n).0) == (if n == 0 {
            0
        } else {
            edges[n - 1] as int
        }) + band_widths(edges, n).1,
        forall|i: int| 0 <= i < n ==> band_widths(edges, n).0[i] >= MIN_NB_FREQS,
    decreases n,
{
    if n > 0 {
        let m = (n - 1) as nat;
        lemma_band_widths(edges, m);
        let widths = band_widths(edges, m).0;
        let grown = band_widths(edges, n).0;
        assert(grown.drop_last() =~= widths);
        if n > 1 {
            assert(edges[n - 2] <= edges[n - 1]);
        } else {
            assert(0 <= edges[0] <= edges[0]);
        }
        assert forall|i: int| 0 <= i < n implies grown[i] >= MIN_NB_FREQS by {
            if i < m {
                assert(grown[i] == widths[i]);
            }
        }
    }
}

/// The widths as mathematical numbers.
pub open spec fn as_ints(xs: Seq<usize>) -> Seq<int> {
    xs.map_values(|x: usize| x as int)
}

/// The width of each band in bins. The last one also takes the bin of 24 kHz
/// itself, so that together they cover every bin once.
pub open spec fn erb_widths_spec() -> Seq<int> {
    let widths = band_widths(erb_edges(), NB_ERB as nat).0;
    widths.update(NB_ERB - 1, widths[NB_ERB - 1] + 1)
}

/// The bands cover all 481 bins, and none is narrower than two.
pub proof fn law_the_bands_cover_every_bin()
    ensures
        erb_widths_spec().len() == NB_ERB,
        sum(erb_widths_spec()) == FREQ_BINS,
        forall|i: int| 0 <= i < NB_ERB ==> erb_widths_spec()[i] >= MIN_NB_FREQS,
{
    lemma_erb_edges();
    let edges = erb_edges();
    let n = NB_ERB as nat;
    lemma_band_widths(edges, n);
    lemma_band_widths(edges, (n - 1) as nat);
    let (before, borrowed) = band_widths(edges, (n - 1) as nat);
    let widths = band_widths(edges, n).0;
    assert(edges[30] == 414 && edges[31] == 480);
    assert(480 - 414 - borrowed >= MIN_NB_FREQS);
    assert(sum(widths) == 480);
    assert(widths.drop_last() =~= erb_widths_spec().drop_last());
    assert(erb_widths_spec().last() == widths.last() + 1);
}

proof fn lemma_erb_edges()
    ensures
        erb_edges().len() == NB_ERB,
        forall|i: int, j: int|
            0 <= i <= j < erb_edges().len() ==> 0 <= #[trigger] erb_edges()[i]
                <= #[trigger] erb_edges()[j],
{
    let edges = erb_edges();
    assert forall|i: int| 0 <= i < 31 implies 0 < #[trigger] edges[i] <= edges[i + 1] by {}
    assert forall|i: int, j: int| 0 <= i <= j < edges.len() implies 0 <= #[trigger] edges[i]
        <= #[trigger] edges[j] by {
        lemma_ascending(edges, i, j);
    }
}

proof fn lemma_ascending(edges: Seq<i32>, i: int, j: int)
    requires
        edges.len() == 32,
        0 <= i <= j < 32,
        forall|k: int| 0 <= k < 31 ==> 0 < #[trigger] edges[k] <= edges[k + 1],
    ensures
        0 < edges[i] <= edges[j],
    decreases j - i,
{
    if i < j {
        lemma_ascending(edges, i, j - 1);
        assert(edges[j - 1] <= edges[j - 1 + 1]);
    } else if i == 31 {
        let k: int = 30;
        assert(edges[k] <= edges[k + 1]);
    }
}

fn edges() -> (r: [i32; 32])
    ensures
        r@ == erb_edges(),
{
    let edges: [i32; 32] = [
        1, 2, 3, 4, 5, 6, 8, 10, 12, 15, 18, 22, 26, 31, 36, 43, 50, 58, 68, 80, 93, 108, 126, 146,
        170, 198, 229, 266, 308, 358, 414, 480,
    ];
    assert(edges@ =~= erb_edges());
    edges
}

/// The width, in bins, of each band on the ERB scale.
pub fn erb_widths() -> (r: Vec<usize>)
    ensures
        as_ints(r@) == erb_widths_spec(),
        sum(as_ints(r@)) == FREQ_BINS,
        r@.len() == NB_ERB,
        forall|i: int| 0 <= i < NB_ERB ==> r@[i] >= MIN_NB_FREQS,
{
    proof {
        lemma_erb_edges();
        law_the_bands_cover_every_bin();
    }
    let edges = edges();
    let mut erb: Vec<usize> = Vec::with_capacity(NB_ERB);
    let mut below: i32 = 0;
    let mut borrowed: i32 = 0;
    for i in 0..NB_ERB
        invariant
            edges@ == erb_edges(),
            edges@.len() == NB_ERB,
            forall|a: int, b: int|
                0 <= a <= b < edges@.len() ==> 0 <= #[trigger] edges@[a] <= #[trigger] edges@[b],
            edges@[31] == 480,
            as_ints(erb@) == band_widths(erb_edges(), i as nat).0,
            borrowed == band_widths(erb_edges(), i as nat).1,
            0 <= borrowed <= 2 * i,
            below == (if i == 0 {
                0
            } else {
                edges@[i - 1] as int
            }),
    {
        proof {
            lemma_band_widths(erb_edges(), i as nat);
            lemma_band_widths(erb_edges(), (i + 1) as nat);
            assert(edges@[i as int] <= edges@[31]);
            if i > 0 {
                assert(0 <= edges@[i - 1] <= edges@[i as int]);
            }
        }
        let ghost before = erb@;
        let edge: i32 = edges[i];
        let own: i32 = edge - below - borrowed;
        if own < MIN_NB_FREQS {
            borrowed = MIN_NB_FREQS - own;
            erb.push(MIN_NB_FREQS as usize);
        } else {
            borrowed = 0;
            erb.push(own as usize);
        }
        below = edge;
        assert(as_ints(erb@) =~= band_widths(erb_edges(), (i + 1) as nat).0);
    }
    proof {
        lemma_band_widths(erb_edges(), NB_ERB as nat);
        assert(as_ints(erb@)[31] == erb@[31]);
        assert(erb_widths_spec()[31] <= 481) by {
            assert(sum(erb_widths_spec().drop_last()) >= 0) by {
                lemma_sum_nonneg(erb_widths_spec().drop_last());
            }
        }
    }
    let last: usize = erb[NB_ERB - 1];
    erb.set(NB_ERB - 1, last + 1);
    assert(as_ints(erb@) =~= erb_widths_spec());
    assert forall|i: int| 0 <= i < NB_ERB implies erb@[i] >= MIN_NB_FREQS by {
        assert(as_ints(erb@)[i] == erb@[i]);
    }
    erb
}

proof fn lemma_sum_nonneg(xs: Seq<int>)
    requires
        forall|i: int| 0 <= i < xs.len() ==> xs[i] >= 0,
    ensures
        sum(xs) >= 0,
    decreases xs.len(),
{
    if xs.len() > 0 {
        lemma_sum_nonneg(xs.drop_last());
    }
}

/// Where the bins of a band start.
pub open spec fn band_start(widths: Seq<usize>, band: int) -> int {
    sum(as_ints(widths).take(band))
}

/// A band lies within the bins that all of them cover.
pub proof fn lemma_band_start(widths: Seq<usize>, band: int)
    requires
        0 <= band < widths.len(),
    ensures
        0 <= band_start(widths, band),
        band_start(widths, band + 1) == band_start(widths, band) + widths[band],
        band_start(widths, band) + widths[band] <= sum(as_ints(widths)),
    decreases widths.len() - band,
{
    let all = as_ints(widths);
    lemma_sum_nonneg(all.take(band));
    assert(all.take(band + 1).drop_last() =~= all.take(band));
    if band + 1 < widths.len() {
        lemma_band_start(widths, band + 1);
    } else {
        assert(all.take(band + 1) =~= all);
    }
}

/// `out` is `block` with each sample weighted by the window.
pub open spec fn weighted<S, M: Fn(S, S) -> S>(
    block: Seq<S>,
    window: Seq<S>,
    times: M,
    out: Seq<S>,
) -> bool {
    &&& out.len() == block.len()
    &&& forall|i: int|
        0 <= i < block.len() ==> call_ensures(times, (block[i], window[i]), #[trigger] out[i])
}

fn weigh<S: Copy, M: Fn(S, S) -> S>(block: &Vec<S>, window: &Vec<S>, times: &M) -> (out: Vec<S>)
    requires
        block@.len() == window@.len(),
        forall|a: S, b: S| call_requires(*times, (a, b)),
    ensures
        weighted(block@, window@, *times, out@),
{
    let mut out: Vec<S> = Vec::with_capacity(block.len());
    for i in 0..block.len()
        invariant
            block@.len() == window@.len(),
            forall|a: S, b: S| call_requires(*times, (a, b)),
            out@.len() == i,
            forall|j: int|
                0 <= j < i ==> call_ensures(*times, (block@[j], window@[j]), #[trigger] out@[j]),
    {
        let ghost before = out@;
        out.push(times(block[i], window[i]));
        assert forall|j: int| 0 <= j < i + 1 implies call_ensures(
            *times,
            (block@[j], window@[j]),
            #[trigger] out@[j],
        ) by {
            if j < i {
                assert(out@[j] == before[j]);
            }
        }
    }
    out
}

/// `spectrum` is the transform of the weighted block, each bin scaled.
pub open spec fn analyses<S, C, F: Fn(Vec<S>) -> Vec<C>, M: Fn(S, S) -> S, K: Fn(C) -> C>(
    block: Seq<S>,
    window: Seq<S>,
    fft: F,
    times: M,
    scale: K,
    spectrum: Seq<C>,
) -> bool {
    exists|input: Vec<S>, raw: Vec<C>|
        {
            &&& weighted(block, window, times, input@)
            &&& #[trigger] call_ensures(fft, (input,), raw)
            &&& spectrum.len() == raw@.len()
            &&& forall|i: int|
                0 <= i < raw@.len() ==> call_ensures(scale, (raw@[i],), #[trigger] spectrum[i])
        }
}

/// `out` is the first half of the weighted block with the tail of the block
/// before it added, and `tail` the second half.
pub open spec fn overlap_adds<S, A: Fn(S, S) -> S>(
    block: Seq<S>,
    old_tail: Seq<S>,
    plus: A,
    zero: S,
    out: Seq<S>,
    tail: Seq<S>,
) -> bool {
    &&& out.len() == HOP
    &&& tail.len() == HOP
    &&& forall|i: int|
        0 <= i < HOP ==> call_ensures(plus, (block[i], old_tail[i]), #[trigger] out[i])
    &&& forall|i: int|
        0 <= i < HOP ==> call_ensures(plus, (zero, block[HOP + i]), #[trigger] tail[i])
}

/// `out` is the audio of `spectrum`: transformed back, weighted again, and
/// added to the tail of the block before it.
pub open spec fn synthesises<
    S,
    C,
    I: Fn(Vec<C>) -> Vec<S>,
    M: Fn(S, S) -> S,
    A: Fn(S, S) -> S,
>(
    spectrum: Vec<C>,
    window: Seq<S>,
    ifft: I,
    times: M,
    plus: A,
    zero: S,
    old_tail: Seq<S>,
    out: Seq<S>,
    tail: Seq<S>,
) -> bool {
    exists|raw: Vec<S>, block: Seq<S>|
        {
            &&& call_ensures(ifft, (spectrum,), raw)
            &&& #[trigger] weighted(raw@, window, times, block)
            &&& overlap_adds(block, old_tail, plus, zero, out, tail)
        }
}

/// `level` is what `to_level` makes of the energy of `width` bins from `start`
/// on, added up.
pub open spec fn band_level<S, C, N: Fn(C) -> S, A: Fn(S, S) -> S, Q: Fn(S, usize) -> S>(
    spectrum: Seq<C>,
    start: int,
    width: usize,
    energy: N,
    plus: A,
    to_level: Q,
    zero: S,
    level: S,
) -> bool {
    exists|energies: Seq<S>, total: S|
        {
            &&& energies.len() == width
            &&& forall|k: int|
                0 <= k < width ==> call_ensures(
                    energy,
                    (spectrum[start + k],),
                    #[trigger] energies[k],
                )
            &&& #[trigger] crate::capture::sums_to(plus, zero, energies, total)
            &&& call_ensures(to_level, (total, width), level)
        }
}

/// `out` is the features of the bands, and `after` what their running means
/// `before` have moved to: the level of each band moves its mean, and is centred
/// on the new one.
pub open spec fn erb_features<
    S,
    C,
    N: Fn(C) -> S,
    A: Fn(S, S) -> S,
    Q: Fn(S, usize) -> S,
    E: Fn(S, S) -> S,
    H: Fn(S, S) -> S,
>(
    widths: Seq<usize>,
    zero: S,
    spectrum: Seq<C>,
    energy: N,
    plus: A,
    to_level: Q,
    decay: E,
    centre: H,
    before: Seq<S>,
    after: Seq<S>,
    out: Seq<S>,
) -> bool {
    &&& out.len() == NB_ERB
    &&& exists|levels: Seq<S>|
        #![trigger levels.len()]
        {
            &&& levels.len() == NB_ERB
            &&& forall|b: int|
                0 <= b < NB_ERB ==> band_level(
                    spectrum,
                    band_start(widths, b),
                    widths[b],
                    energy,
                    plus,
                    to_level,
                    zero,
                    #[trigger] levels[b],
                )
            &&& forall|b: int|
                0 <= b < NB_ERB ==> call_ensures(
                    decay,
                    (levels[b], before[b]),
                    #[trigger] after[b],
                )
            &&& forall|b: int|
                0 <= b < NB_ERB ==> call_ensures(centre, (levels[b], after[b]), #[trigger] out[b])
        }
}

/// `out` is the features of the lowest bins, and `after` what their running
/// magnitudes `before` have moved to.
pub open spec fn spec_features<S, C, E: Fn(C, S) -> S, U: Fn(C, S) -> C>(
    spectrum: Seq<C>,
    decay: E,
    unit: U,
    before: Seq<S>,
    after: Seq<S>,
    out: Seq<C>,
) -> bool {
    &&& out.len() == NB_DF
    &&& forall|i: int|
        0 <= i < NB_DF ==> call_ensures(decay, (spectrum[i], before[i]), #[trigger] after[i])
    &&& forall|i: int|
        0 <= i < NB_DF ==> call_ensures(unit, (spectrum[i], after[i]), #[trigger] out[i])
}

/// Overlapping blocks and normalised features, one hop at a time.
pub struct DfFrontend<S> {
    zero: S,
    window: Vec<S>,
    erb: Vec<usize>,
    analysis_mem: Vec<S>,
    synthesis_mem: Vec<S>,
    mean_norm_state: Vec<S>,
    unit_norm_state: Vec<S>,
}

/// Analysing `hop` took the front end from `before` to `after` and gave
/// `spectrum`: that of the hop before it and this one.
pub open spec fn takes_apart<
    S: Copy,
    C,
    F: Fn(Vec<S>) -> Vec<C>,
    M: Fn(S, S) -> S,
    K: Fn(C) -> C,
>(
    before: DfFrontend<S>,
    after: DfFrontend<S>,
    hop: Seq<S>,
    fft: F,
    times: M,
    scale: K,
    spectrum: Seq<C>,
) -> bool {
    &&& after.same_setup(&before)
    &&& after.tail() == before.tail()
    &&& after.means() == before.means()
    &&& after.magnitudes() == before.magnitudes()
    &&& after.memory() == hop
    &&& analyses(before.memory() + hop, before.spec_window(), fft, times, scale, spectrum)
}

/// Putting `spectrum` together took the front end from `before` to `after` and
/// gave `out`.
pub open spec fn puts_together<
    S: Copy,
    C,
    I: Fn(Vec<C>) -> Vec<S>,
    M: Fn(S, S) -> S,
    A: Fn(S, S) -> S,
>(
    before: DfFrontend<S>,
    after: DfFrontend<S>,
    spectrum: Vec<C>,
    ifft: I,
    times: M,
    plus: A,
    out: Seq<S>,
) -> bool {
    &&& after.same_setup(&before)
    &&& after.memory() == before.memory()
    &&& after.means() == before.means()
    &&& after.magnitudes() == before.magnitudes()
    &&& synthesises(
        spectrum,
        before.spec_window(),
        ifft,
        times,
        plus,
        before.spec_zero(),
        before.tail(),
        out,
        after.tail(),
    )
}

impl<S: Copy> DfFrontend<S> {
    pub closed spec fn spec_zero(&self) -> S {
        self.zero
    }

    pub closed spec fn spec_window(&self) -> Seq<S> {
        self.window@
    }

    pub closed spec fn spec_erb(&self) -> Seq<usize> {
        self.erb@
    }

    /// The hop before, which the next block starts with.
    pub closed spec fn memory(&self) -> Seq<S> {
        self.analysis_mem@
    }

    /// The second half of the last block that was put back together.
    pub closed spec fn tail(&self) -> Seq<S> {
        self.synthesis_mem@
    }

    /// The running mean of each band's level.
    pub closed spec fn means(&self) -> Seq<S> {
        self.mean_norm_state@
    }

    /// The running magnitude of each of the lowest bins.
    pub closed spec fn magnitudes(&self) -> Seq<S> {
        self.unit_norm_state@
    }

    pub open spec fn wf(&self) -> bool {
        &&& self.spec_window().len() == FFT_SIZE
        &&& as_ints(self.spec_erb()) == erb_widths_spec()
        &&& self.spec_erb().len() == NB_ERB
        &&& self.memory().len() == HOP
        &&& self.tail().len() == HOP
        &&& self.means().len() == NB_ERB
        &&& self.magnitudes().len() == NB_DF
    }

    /// The parts that never change.
    pub open spec fn same_setup(&self, other: &Self) -> bool {
        &&& self.spec_zero() == other.spec_zero()
        &&& self.spec_window() == other.spec_window()
        &&& self.spec_erb() == other.spec_erb()
    }

    /// A front end at the start of a stream, with silence before it. `means`
    /// and `magnitudes` are what the running averages start from.
    pub fn new(zero: S, window: Vec<S>, means: Vec<S>, magnitudes: Vec<S>) -> (r: Self)
        requires
            window@.len() == FFT_SIZE,
            means@.len() == NB_ERB,
            magnitudes@.len() == NB_DF,
        ensures
            r.wf(),
            r.spec_zero() == zero,
            r.spec_window() == window@,
            r.memory() == Seq::new(HOP as nat, |i: int| zero),
            r.tail() == Seq::new(HOP as nat, |i: int| zero),
            r.means() == means@,
            r.magnitudes() == magnitudes@,
    {
        DfFrontend {
            zero,
            window,
            erb: erb_widths(),
            analysis_mem: crate::capture::silence(zero, HOP),
            synthesis_mem: crate::capture::silence(zero, HOP),
            mean_norm_state: means,
            unit_norm_state: magnitudes,
        }
    }

    /// One hop of audio to one spectrum. The block is the hop before and this
    /// one; this one is kept for the next block.
    pub fn analysis<C: Copy, F: Fn(Vec<S>) -> Vec<C>, M: Fn(S, S) -> S, K: Fn(C) -> C>(
        &mut self,
        frame: &Frame<S>,
        fft: &F,
        times: &M,
        scale: &K,
    ) -> (spectrum: Vec<C>)
        requires
            old(self).wf(),
            forall|b: Vec<S>| b@.len() == FFT_SIZE ==> call_requires(*fft, (b,)),
            forall|b: Vec<S>, s: Vec<C>|
                b@.len() == FFT_SIZE && call_ensures(*fft, (b,), s) ==> s@.len() == FREQ_BINS,
            forall|a: S, b: S| call_requires(*times, (a, b)),
            forall|c: C| call_requires(*scale, (c,)),
        ensures
            final(self).wf(),
            spectrum@.len() == FREQ_BINS,
            takes_apart(*old(self), *final(self), frame@, *fft, *times, *scale, spectrum@),
    {
        let mut block: Vec<S> = Vec::with_capacity(FFT_SIZE);
        let mut hop: Vec<S> = Vec::with_capacity(HOP);
        for i in 0..HOP
            invariant
                self.wf(),
                *self == *old(self),
                block@ == self.memory().take(i as int),
        {
            block.push(self.analysis_mem[i]);
            assert(block@ =~= self.memory().take(i + 1));
        }
        assert(block@ =~= old(self).memory());
        for i in 0..HOP
            invariant
                frame@.len() == HOP,
                block@ == old(self).memory() + frame@.take(i as int),
                hop@ == frame@.take(i as int),
        {
            block.push(frame[i]);
            hop.push(frame[i]);
            assert(hop@ =~= frame@.take(i + 1));
            assert(block@ =~= old(self).memory() + frame@.take(i + 1));
        }
        assert(hop@ =~= frame@);
        assert(block@ =~= old(self).memory() + frame@);
        let input = weigh(&block, &self.window, times);
        let ghost given = input;
        let raw = fft(input);
        let mut spectrum: Vec<C> = Vec::with_capacity(FREQ_BINS);
        for i in 0..raw.len()
            invariant
                forall|c: C| call_requires(*scale, (c,)),
                spectrum@.len() == i,
                forall|j: int|
                    0 <= j < i ==> call_ensures(*scale, (raw@[j],), #[trigger] spectrum@[j]),
        {
            let ghost before = spectrum@;
            spectrum.push(scale(raw[i]));
            assert forall|j: int| 0 <= j < i + 1 implies call_ensures(
                *scale,
                (raw@[j],),
                #[trigger] spectrum@[j],
            ) by {
                if j < i {
                    assert(spectrum@[j] == before[j]);
                }
            }
        }
        assert(call_ensures(*fft, (given,), raw));
        self.analysis_mem = hop;
        spectrum
    }

    /// One spectrum back to one hop of audio, added to the tail of the block
    /// before.
    pub fn synthesis<C, I: Fn(Vec<C>) -> Vec<S>, M: Fn(S, S) -> S, A: Fn(S, S) -> S>(
        &mut self,
        spectrum: Vec<C>,
        ifft: &I,
        times: &M,
        plus: &A,
    ) -> (out: Frame<S>)
        requires
            old(self).wf(),
            call_requires(*ifft, (spectrum,)),
            forall|b: Vec<S>| call_ensures(*ifft, (spectrum,), b) ==> b@.len() == FFT_SIZE,
            forall|a: S, b: S| call_requires(*times, (a, b)),
            forall|a: S, b: S| call_requires(*plus, (a, b)),
        ensures
            final(self).wf(),
            puts_together(*old(self), *final(self), spectrum, *ifft, *times, *plus, out@),
    {
        let raw = ifft(spectrum);
        let block = weigh(&raw, &self.window, times);
        let mut out: Frame<S> = [self.zero; FRAME_SAMPLES];
        let mut tail: Vec<S> = Vec::with_capacity(HOP);
        for i in 0..HOP
            invariant
                *self == *old(self),
                self.wf(),
                block@.len() == FFT_SIZE,
                tail@.len() == i,
                forall|a: S, b: S| call_requires(*plus, (a, b)),
                forall|j: int|
                    0 <= j < i ==> call_ensures(
                        *plus,
                        (block@[j], self.synthesis_mem@[j]),
                        #[trigger] out@[j],
                    ),
                forall|j: int|
                    0 <= j < i ==> call_ensures(
                        *plus,
                        (self.zero, block@[HOP + j]),
                        #[trigger] tail@[j],
                    ),
        {
            let ghost before = tail@;
            out[i] = plus(block[i], self.synthesis_mem[i]);
            tail.push(plus(self.zero, block[HOP + i]));
            assert forall|j: int| 0 <= j < i + 1 implies call_ensures(
                *plus,
                (self.zero, block@[HOP + j]),
                #[trigger] tail@[j],
            ) by {
                if j < i {
                    assert(tail@[j] == before[j]);
                }
            }
        }
        self.synthesis_mem = tail;
        assert(weighted(raw@, old(self).spec_window(), *times, block@));
        out
    }

    /// The level of each band, centred on its own running mean.
    ///
    /// `to_level` makes a level of the band's energy and width, `decay` moves
    /// the running mean towards a level, and `centre` is what a level is worth
    /// against the new mean.
    pub fn feat_erb<
        C: Copy,
        N: Fn(C) -> S,
        A: Fn(S, S) -> S,
        Q: Fn(S, usize) -> S,
        E: Fn(S, S) -> S,
        H: Fn(S, S) -> S,
    >(
        &mut self,
        spectrum: &Vec<C>,
        energy: &N,
        plus: &A,
        to_level: &Q,
        decay: &E,
        centre: &H,
    ) -> (out: Vec<S>)
        requires
            old(self).wf(),
            spectrum@.len() == FREQ_BINS,
            forall|c: C| call_requires(*energy, (c,)),
            forall|a: S, b: S| call_requires(*plus, (a, b)),
            forall|a: S, n: usize| call_requires(*to_level, (a, n)),
            forall|a: S, b: S| call_requires(*decay, (a, b)),
            forall|a: S, b: S| call_requires(*centre, (a, b)),
        ensures
            final(self).wf(),
            final(self).same_setup(old(self)),
            final(self).memory() == old(self).memory(),
            final(self).tail() == old(self).tail(),
            final(self).magnitudes() == old(self).magnitudes(),
            erb_features(
                old(self).spec_erb(),
                old(self).spec_zero(),
                spectrum@,
                *energy,
                *plus,
                *to_level,
                *decay,
                *centre,
                old(self).means(),
                final(self).means(),
                out@,
            ),
    {
        proof {
            law_the_bands_cover_every_bin();
        }
        let mut out: Vec<S> = Vec::with_capacity(NB_ERB);
        let mut means: Vec<S> = Vec::with_capacity(NB_ERB);
        let ghost mut levels: Seq<S> = Seq::empty();
        let mut pos: usize = 0;
        assert(as_ints(self.spec_erb()).take(0) =~= Seq::<int>::empty());
        for b in 0..NB_ERB
            invariant
                *self == *old(self),
                self.wf(),
                spectrum@.len() == FREQ_BINS,
                sum(as_ints(self.spec_erb())) == FREQ_BINS,
                forall|c: C| call_requires(*energy, (c,)),
                forall|a: S, b: S| call_requires(*plus, (a, b)),
                forall|a: S, n: usize| call_requires(*to_level, (a, n)),
                forall|a: S, b: S| call_requires(*decay, (a, b)),
                forall|a: S, b: S| call_requires(*centre, (a, b)),
                pos == band_start(self.spec_erb(), b as int),
                levels.len() == b,
                means@.len() == b,
                out@.len() == b,
                forall|k: int|
                    0 <= k < b ==> band_level(
                        spectrum@,
                        band_start(self.spec_erb(), k),
                        self.spec_erb()[k],
                        *energy,
                        *plus,
                        *to_level,
                        self.spec_zero(),
                        #[trigger] levels[k],
                    ),
                forall|k: int|
                    0 <= k < b ==> call_ensures(
                        *decay,
                        (levels[k], self.means()[k]),
                        #[trigger] means@[k],
                    ),
                forall|k: int|
                    0 <= k < b ==> call_ensures(*centre, (levels[k], means@[k]), #[trigger] out@[k]),
        {
            proof {
                lemma_band_start(self.spec_erb(), b as int);
            }
            let width: usize = self.erb[b];
            let level = level_of(spectrum, pos, width, energy, plus, to_level, self.zero);
            let mean = decay(level, self.mean_norm_state[b]);
            let ghost means_before = means@;
            let ghost out_before = out@;
            means.push(mean);
            out.push(centre(level, mean));
            proof {
                let grown = levels.push(level);
                assert forall|k: int| 0 <= k < b + 1 implies band_level(
                    spectrum@,
                    band_start(self.spec_erb(), k),
                    self.spec_erb()[k],
                    *energy,
                    *plus,
                    *to_level,
                    self.spec_zero(),
                    #[trigger] grown[k],
                ) by {
                    if k < b {
                        assert(grown[k] == levels[k]);
                    }
                }
                assert forall|k: int| 0 <= k < b + 1 implies call_ensures(
                    *decay,
                    (grown[k], self.means()[k]),
                    #[trigger] means@[k],
                ) by {
                    if k < b {
                        assert(means@[k] == means_before[k]);
                    }
                }
                assert forall|k: int| 0 <= k < b + 1 implies call_ensures(
                    *centre,
                    (grown[k], means@[k]),
                    #[trigger] out@[k],
                ) by {
                    if k < b {
                        assert(out@[k] == out_before[k]);
                        assert(means@[k] == means_before[k]);
                    }
                }
                levels = grown;
            }
            pos = pos + width;
        }
        self.mean_norm_state = means;
        assert(levels.len() == NB_ERB);
        out
    }

    /// The lowest bins, each against its own running magnitude.
    ///
    /// `decay` moves the running magnitude towards that of a bin, and `unit`
    /// is what the bin is worth against the new one.
    pub fn feat_spec<C: Copy, E: Fn(C, S) -> S, U: Fn(C, S) -> C>(
        &mut self,
        spectrum: &Vec<C>,
        decay: &E,
        unit: &U,
    ) -> (out: Vec<C>)
        requires
            old(self).wf(),
            spectrum@.len() == FREQ_BINS,
            forall|c: C, a: S| call_requires(*decay, (c, a)),
            forall|c: C, a: S| call_requires(*unit, (c, a)),
        ensures
            final(self).wf(),
            final(self).same_setup(old(self)),
            final(self).memory() == old(self).memory(),
            final(self).tail() == old(self).tail(),
            final(self).means() == old(self).means(),
            spec_features(
                spectrum@,
                *decay,
                *unit,
                old(self).magnitudes(),
                final(self).magnitudes(),
                out@,
            ),
    {
        let mut out: Vec<C> = Vec::with_capacity(NB_DF);
        let mut magnitudes: Vec<S> = Vec::with_capacity(NB_DF);
        for i in 0..NB_DF
            invariant
                *self == *old(self),
                self.wf(),
                spectrum@.len() == FREQ_BINS,
                forall|c: C, a: S| call_requires(*decay, (c, a)),
                forall|c: C, a: S| call_requires(*unit, (c, a)),
                out@.len() == i,
                magnitudes@.len() == i,
                forall|j: int|
                    0 <= j < i ==> call_ensures(
                        *decay,
                        (spectrum@[j], self.magnitudes()[j]),
                        #[trigger] magnitudes@[j],
                    ),
                forall|j: int|
                    0 <= j < i ==> call_ensures(
                        *unit,
                        (spectrum@[j], magnitudes@[j]),
                        #[trigger] out@[j],
                    ),
        {
            let ghost m_before = magnitudes@;
            let ghost o_before = out@;
            let magnitude = decay(spectrum[i], self.unit_norm_state[i]);
            magnitudes.push(magnitude);
            out.push(unit(spectrum[i], magnitude));
            assert forall|j: int| 0 <= j < i + 1 implies call_ensures(
                *decay,
                (spectrum@[j], self.magnitudes()[j]),
                #[trigger] magnitudes@[j],
            ) by {
                if j < i {
                    assert(magnitudes@[j] == m_before[j]);
                }
            }
            assert forall|j: int| 0 <= j < i + 1 implies call_ensures(
                *unit,
                (spectrum@[j], magnitudes@[j]),
                #[trigger] out@[j],
            ) by {
                if j < i {
                    assert(out@[j] == o_before[j]);
                    assert(magnitudes@[j] == m_before[j]);
                }
            }
        }
        self.unit_norm_state = magnitudes;
        out
    }
}

/// The level of one band.
fn level_of<S: Copy, C: Copy, N: Fn(C) -> S, A: Fn(S, S) -> S, Q: Fn(S, usize) -> S>(
    spectrum: &Vec<C>,
    start: usize,
    width: usize,
    energy: &N,
    plus: &A,
    to_level: &Q,
    zero: S,
) -> (level: S)
    requires
        start + width <= spectrum@.len(),
        forall|c: C| call_requires(*energy, (c,)),
        forall|a: S, b: S| call_requires(*plus, (a, b)),
        forall|a: S, n: usize| call_requires(*to_level, (a, n)),
    ensures
        band_level(
            spectrum@,
            start as int,
            width,
            *energy,
            *plus,
            *to_level,
            zero,
            level,
        ),
{
    let length: usize = spectrum.len();
    let mut energies: Vec<S> = Vec::with_capacity(width);
    for k in 0..width
        invariant
            length == spectrum@.len(),
            start + width <= length,
            forall|c: C| call_requires(*energy, (c,)),
            energies@.len() == k,
            forall|j: int|
                0 <= j < k ==> call_ensures(
                    *energy,
                    (spectrum@[start + j],),
                    #[trigger] energies@[j],
                ),
    {
        let ghost before = energies@;
        energies.push(energy(spectrum[start + k]));
        assert forall|j: int| 0 <= j < k + 1 implies call_ensures(
            *energy,
            (spectrum@[start + j],),
            #[trigger] energies@[j],
        ) by {
            if j < k {
                assert(energies@[j] == before[j]);
            }
        }
    }
    let total = crate::capture::add_up(energies.as_slice(), 0, width, plus, zero);
    assert(energies@.subrange(0, width as int) =~= energies@);
    assert(crate::capture::sums_to(*plus, zero, energies@, total));
    to_level(total, width)
}

/// The transform back undoes the transform and the scaling of its bins.
pub open spec fn inverts<S, C, F: Fn(Vec<S>) -> Vec<C>, K: Fn(C) -> C, I: Fn(Vec<C>) -> Vec<S>>(
    fft: F,
    scale: K,
    ifft: I,
) -> bool {
    forall|input: Vec<S>, raw: Vec<C>, spectrum: Vec<C>, back: Vec<S>|
        {
            &&& input@.len() == FFT_SIZE
            &&& #[trigger] call_ensures(fft, (input,), raw)
            &&& spectrum@.len() == raw@.len()
            &&& forall|i: int|
                0 <= i < raw@.len() ==> call_ensures(scale, (raw@[i],), #[trigger] spectrum@[i])
            &&& #[trigger] call_ensures(ifft, (spectrum,), back)
        } ==> back@ == input@
}

/// The window's squares add up to one across the overlap: a sample weighted
/// twice where one block falls, and twice where the next one rises, adds up to
/// the sample.
pub open spec fn overlaps_to_one<S, M: Fn(S, S) -> S, A: Fn(S, S) -> S>(
    window: Seq<S>,
    times: M,
    plus: A,
    zero: S,
) -> bool {
    forall|j: int, x: S, fall: S, fallen: S, tail: S, rise: S, risen: S, y: S|
        {
            &&& 0 <= j < HOP
            &&& #[trigger] call_ensures(times, (x, window[HOP + j]), fall)
            &&& #[trigger] call_ensures(times, (fall, window[HOP + j]), fallen)
            &&& #[trigger] call_ensures(plus, (zero, fallen), tail)
            &&& #[trigger] call_ensures(times, (x, window[j]), rise)
            &&& #[trigger] call_ensures(times, (rise, window[j]), risen)
            &&& #[trigger] call_ensures(plus, (risen, tail), y)
        } ==> y == x
}

/// A hop was analysed and its spectrum put back together untouched, which took
/// the front end from `before` to `after` and gave `out`.
pub open spec fn round_trip<
    S: Copy,
    C,
    F: Fn(Vec<S>) -> Vec<C>,
    M: Fn(S, S) -> S,
    K: Fn(C) -> C,
    I: Fn(Vec<C>) -> Vec<S>,
    A: Fn(S, S) -> S,
>(
    before: DfFrontend<S>,
    after: DfFrontend<S>,
    hop: Seq<S>,
    spectrum: Vec<C>,
    out: Seq<S>,
    fft: F,
    times: M,
    scale: K,
    ifft: I,
    plus: A,
) -> bool {
    &&& hop.len() == HOP
    &&& after.wf()
    &&& exists|between: DfFrontend<S>| #[trigger]
        takes_apart(before, between, hop, fft, times, scale, spectrum@) && puts_together(
            between,
            after,
            spectrum,
            ifft,
            times,
            plus,
            out,
        )
}

/// Taking a signal apart and putting it together again gives it back, one hop
/// late: where the transform back undoes the transform and the window's squares
/// add up to one across the overlap, what comes out for the second of two hops
/// in a row is the first.
pub proof fn law_synthesis_undoes_analysis<
    S: Copy,
    C,
    F: Fn(Vec<S>) -> Vec<C>,
    M: Fn(S, S) -> S,
    K: Fn(C) -> C,
    I: Fn(Vec<C>) -> Vec<S>,
    A: Fn(S, S) -> S,
>(
    before: DfFrontend<S>,
    between: DfFrontend<S>,
    after: DfFrontend<S>,
    first: Seq<S>,
    second: Seq<S>,
    spectrum1: Vec<C>,
    spectrum2: Vec<C>,
    out1: Seq<S>,
    out2: Seq<S>,
    fft: F,
    times: M,
    scale: K,
    ifft: I,
    plus: A,
)
    requires
        before.wf(),
        inverts(fft, scale, ifft),
        overlaps_to_one(before.spec_window(), times, plus, before.spec_zero()),
        round_trip(before, between, first, spectrum1, out1, fft, times, scale, ifft, plus),
        round_trip(between, after, second, spectrum2, out2, fft, times, scale, ifft, plus),
    ensures
        out2 == first,
{
    lemma_overlap_restores(
        before.spec_window(),
        before.spec_zero(),
        before.memory(),
        first,
        second,
        spectrum1,
        spectrum2,
        before.tail(),
        between.tail(),
        after.tail(),
        out1,
        out2,
        fft,
        times,
        scale,
        ifft,
        plus,
    );
}

/// Two blocks that overlap in `first`, taken apart and put together again one
/// after the other, give it back.
pub proof fn lemma_overlap_restores<
    S,
    C,
    F: Fn(Vec<S>) -> Vec<C>,
    M: Fn(S, S) -> S,
    K: Fn(C) -> C,
    I: Fn(Vec<C>) -> Vec<S>,
    A: Fn(S, S) -> S,
>(
    window: Seq<S>,
    zero: S,
    memory: Seq<S>,
    first: Seq<S>,
    second: Seq<S>,
    spectrum1: Vec<C>,
    spectrum2: Vec<C>,
    tail0: Seq<S>,
    tail1: Seq<S>,
    tail2: Seq<S>,
    out1: Seq<S>,
    out2: Seq<S>,
    fft: F,
    times: M,
    scale: K,
    ifft: I,
    plus: A,
)
    requires
        memory.len() == HOP,
        first.len() == HOP,
        second.len() == HOP,
        inverts(fft, scale, ifft),
        overlaps_to_one(window, times, plus, zero),
        analyses(memory + first, window, fft, times, scale, spectrum1@),
        analyses(first + second, window, fft, times, scale, spectrum2@),
        synthesises(spectrum1, window, ifft, times, plus, zero, tail0, out1, tail1),
        synthesises(spectrum2, window, ifft, times, plus, zero, tail1, out2, tail2),
    ensures
        out2 == first,
{
    let block1 = memory + first;
    let block2 = first + second;
    let (in1, bins1) = choose|input: Vec<S>, raw: Vec<C>|
        {
            &&& weighted(block1, window, times, input@)
            &&& #[trigger] call_ensures(fft, (input,), raw)
            &&& spectrum1@.len() == raw@.len()
            &&& forall|i: int|
                0 <= i < raw@.len() ==> call_ensures(scale, (raw@[i],), #[trigger] spectrum1@[i])
        };
    let (in2, bins2) = choose|input: Vec<S>, raw: Vec<C>|
        {
            &&& weighted(block2, window, times, input@)
            &&& #[trigger] call_ensures(fft, (input,), raw)
            &&& spectrum2@.len() == raw@.len()
            &&& forall|i: int|
                0 <= i < raw@.len() ==> call_ensures(scale, (raw@[i],), #[trigger] spectrum2@[i])
        };
    let (raw1, back1) = choose|raw: Vec<S>, block: Seq<S>|
        {
            &&& call_ensures(ifft, (spectrum1,), raw)
            &&& #[trigger] weighted(raw@, window, times, block)
            &&& overlap_adds(block, tail0, plus, zero, out1, tail1)
        };
    let (raw2, back2) = choose|raw: Vec<S>, block: Seq<S>|
        {
            &&& call_ensures(ifft, (spectrum2,), raw)
            &&& #[trigger] weighted(raw@, window, times, block)
            &&& overlap_adds(block, tail1, plus, zero, out2, tail2)
        };
    assert(raw1@ == in1@);
    assert(raw2@ == in2@);
    assert forall|j: int| 0 <= j < HOP implies #[trigger] out2[j] == first[j] by {
        let x = first[j];
        assert(block1[HOP + j] == x);
        assert(block2[j] == x);
        assert(call_ensures(times, (x, window[HOP + j]), in1@[HOP + j]));
        assert(call_ensures(times, (in1@[HOP + j], window[HOP + j]), back1[HOP + j]));
        assert(call_ensures(plus, (zero, back1[HOP + j]), tail1[j]));
        assert(call_ensures(times, (x, window[j]), in2@[j]));
        assert(call_ensures(times, (in2@[j], window[j]), back2[j]));
        assert(call_ensures(plus, (back2[j], tail1[j]), out2[j]));
    }
    assert(out2 =~= first);
}

/// The same of a whole stream: `fronts[i]` is the front end before the `i`-th
/// hop. Every hop but the first gives the hop before it.
pub proof fn law_a_stream_is_reconstructed_one_hop_late<
    S: Copy,
    C,
    F: Fn(Vec<S>) -> Vec<C>,
    M: Fn(S, S) -> S,
    K: Fn(C) -> C,
    I: Fn(Vec<C>) -> Vec<S>,
    A: Fn(S, S) -> S,
>(
    fronts: Seq<DfFrontend<S>>,
    hops: Seq<Seq<S>>,
    spectra: Seq<Vec<C>>,
    outs: Seq<Seq<S>>,
    fft: F,
    times: M,
    scale: K,
    ifft: I,
    plus: A,
)
    requires
        fronts.len() == hops.len() + 1,
        spectra.len() == hops.len(),
        outs.len() == hops.len(),
        fronts[0].wf(),
        inverts(fft, scale, ifft),
        overlaps_to_one(fronts[0].spec_window(), times, plus, fronts[0].spec_zero()),
        forall|i: int|
            0 <= i < hops.len() ==> round_trip(
                fronts[i],
                fronts[i + 1],
                #[trigger] hops[i],
                spectra[i],
                outs[i],
                fft,
                times,
                scale,
                ifft,
                plus,
            ),
    ensures
        forall|i: int| 1 <= i < hops.len() ==> #[trigger] outs[i] == hops[i - 1],
{
    assert forall|i: int| 1 <= i < hops.len() implies #[trigger] outs[i] == hops[i - 1] by {
        lemma_setup_stays(fronts, hops, spectra, outs, fft, times, scale, ifft, plus, i - 1);
        assert(round_trip(
            fronts[i - 1],
            fronts[i],
            hops[i - 1],
            spectra[i - 1],
            outs[i - 1],
            fft,
            times,
            scale,
            ifft,
            plus,
        ));
        assert(round_trip(
            fronts[i],
            fronts[i + 1],
            hops[i],
            spectra[i],
            outs[i],
            fft,
            times,
            scale,
            ifft,
            plus,
        ));
        law_synthesis_undoes_analysis(
            fronts[i - 1],
            fronts[i],
            fronts[i + 1],
            hops[i - 1],
            hops[i],
            spectra[i - 1],
            spectra[i],
            outs[i - 1],
            outs[i],
            fft,
            times,
            scale,
            ifft,
            plus,
        );
    }
}

proof fn lemma_setup_stays<
    S: Copy,
    C,
    F: Fn(Vec<S>) -> Vec<C>,
    M: Fn(S, S) -> S,
    K: Fn(C) -> C,
    I: Fn(Vec<C>) -> Vec<S>,
    A: Fn(S, S) -> S,
>(
    fronts: Seq<DfFrontend<S>>,
    hops: Seq<Seq<S>>,
    spectra: Seq<Vec<C>>,
    outs: Seq<Seq<S>>,
    fft: F,
    times: M,
    scale: K,
    ifft: I,
    plus: A,
    k: int,
)
    requires
        0 <= k < hops.len(),
        fronts[0].wf(),
        forall|i: int|
            0 <= i < hops.len() ==> round_trip(
                fronts[i],
                fronts[i + 1],
                #[trigger] hops[i],
                spectra[i],
                outs[i],
                fft,
                times,
                scale,
                ifft,
                plus,
            ),
    ensures
        fronts[k].wf(),
        fronts[k].same_setup(&fronts[0]),
    decreases k,
{
    if k > 0 {
        lemma_setup_stays(fronts, hops, spectra, outs, fft, times, scale, ifft, plus, k - 1);
        assert(round_trip(
            fronts[k - 1],
            fronts[k],
            hops[k - 1],
            spectra[k - 1],
            outs[k - 1],
            fft,
            times,
            scale,
            ifft,
            plus,
        ));
    }
}

/// The energy of `n` bins from `lo` on.
pub open spec fn energy_in<C>(spectrum: Seq<C>, en: spec_fn(C) -> int, lo: int, n: int) -> int {
    sum(Seq::new(n as nat, |k: int| en(spectrum[lo + k])))
}

/// One stretch of bins and the next, together.
proof fn lemma_energy_in_two_parts<C>(
    spectrum: Seq<C>,
    en: spec_fn(C) -> int,
    lo: int,
    a: int,
    b: int,
)
    requires
        a >= 0,
        b >= 0,
    ensures
        energy_in(spectrum, en, lo, a + b) == energy_in(spectrum, en, lo, a) + energy_in(
            spectrum,
            en,
            lo + a,
            b,
        ),
    decreases b,
{
    let whole = Seq::new((a + b) as nat, |k: int| en(spectrum[lo + k]));
    let second = Seq::new(b as nat, |k: int| en(spectrum[lo + a + k]));
    if b == 0 {
        assert(second.len() == 0);
    } else {
        lemma_energy_in_two_parts(spectrum, en, lo, a, b - 1);
        assert(whole.drop_last() =~= Seq::new((a + b - 1) as nat, |k: int| en(spectrum[lo + k])));
        assert(second.drop_last() =~= Seq::new(
            (b - 1) as nat,
            |k: int| en(spectrum[lo + a + k]),
        ));
        assert(whole.last() == second.last());
    }
}

/// The energy of the first `n` bands is that of all bins below the next one.
proof fn lemma_energy_of_bands<C>(
    spectrum: Seq<C>,
    en: spec_fn(C) -> int,
    widths: Seq<int>,
    energies: Seq<int>,
    n: int,
)
    requires
        0 <= n <= widths.len(),
        energies.len() == widths.len(),
        forall|b: int| 0 <= b < widths.len() ==> #[trigger] widths[b] >= 0,
        forall|b: int|
            0 <= b < widths.len() ==> #[trigger] energies[b] == energy_in(
                spectrum,
                en,
                sum(widths.take(b)),
                widths[b],
            ),
    ensures
        sum(widths.take(n)) >= 0,
        sum(energies.take(n)) == energy_in(spectrum, en, 0, sum(widths.take(n))),
    decreases n,
{
    if n == 0 {
        assert(widths.take(0) =~= Seq::<int>::empty());
        assert(energies.take(0) =~= Seq::<int>::empty());
        assert(Seq::new(0, |k: int| en(spectrum[0 + k])) =~= Seq::<int>::empty());
    } else {
        lemma_energy_of_bands(spectrum, en, widths, energies, n - 1);
        assert(widths.take(n).drop_last() =~= widths.take(n - 1));
        assert(energies.take(n).drop_last() =~= energies.take(n - 1));
        assert(widths.take(n).last() == widths[n - 1]);
        assert(energies.take(n).last() == energies[n - 1]);
        lemma_energy_in_two_parts(spectrum, en, 0, sum(widths.take(n - 1)), widths[n - 1]);
    }
}

/// What the feature of a band is made of: `total`, through its level.
pub open spec fn feature_of<
    S,
    Q: Fn(S, usize) -> S,
    E: Fn(S, S) -> S,
    H: Fn(S, S) -> S,
>(total: S, width: usize, to_level: Q, decay: E, centre: H, before: S, after: S, out: S) -> bool {
    exists|level: S| #[trigger]
        call_ensures(to_level, (total, width), level) && call_ensures(
            decay,
            (level, before),
            after,
        ) && call_ensures(centre, (level, after), out)
}

/// Every bin counts towards the level of its band, and of no other, exactly
/// once. `totals` are what the bands' levels are made of: each is worth the
/// energy of its own bins, from where the bands before it end and as many as it
/// is wide, and together they are worth the energy of the whole spectrum. `en`
/// is what the energy of a bin is worth, and `worth` what a sample is.
pub proof fn law_every_bin_counts_once_in_its_band<
    S,
    C,
    N: Fn(C) -> S,
    A: Fn(S, S) -> S,
    Q: Fn(S, usize) -> S,
    E: Fn(S, S) -> S,
    H: Fn(S, S) -> S,
>(
    widths: Seq<usize>,
    zero: S,
    spectrum: Seq<C>,
    energy: N,
    plus: A,
    to_level: Q,
    decay: E,
    centre: H,
    before: Seq<S>,
    after: Seq<S>,
    out: Seq<S>,
    en: spec_fn(C) -> int,
    worth: spec_fn(S) -> int,
) -> (totals: Seq<S>)
    requires
        as_ints(widths) == erb_widths_spec(),
        spectrum.len() == 481,
        worth(zero) == 0,
        forall|c: C, e: S| #[trigger] call_ensures(energy, (c,), e) ==> worth(e) == en(c),
        forall|a: S, b: S, v: S| #[trigger]
            call_ensures(plus, (a, b), v) ==> worth(v) == worth(a) + worth(b),
        erb_features(
            widths,
            zero,
            spectrum,
            energy,
            plus,
            to_level,
            decay,
            centre,
            before,
            after,
            out,
        ),
    ensures
        totals.len() == 32,
        forall|b: int|
            0 <= b < 32 ==> worth(#[trigger] totals[b]) == energy_in(
                spectrum,
                en,
                sum(erb_widths_spec().take(b)),
                erb_widths_spec()[b],
            ),
        forall|b: int|
            0 <= b < 32 ==> feature_of(
                #[trigger] totals[b],
                widths[b],
                to_level,
                decay,
                centre,
                before[b],
                after[b],
                out[b],
            ),
        sum(totals.map_values(worth)) == sum(spectrum.map_values(en)),
{
    law_the_bands_cover_every_bin();
    let all = erb_widths_spec();
    assert(widths.len() == 32) by {
        assert(as_ints(widths).len() == 32);
    }
    let levels = choose|levels: Seq<S>|
        #![trigger levels.len()]
        {
            &&& levels.len() == NB_ERB
            &&& forall|b: int|
                0 <= b < NB_ERB ==> band_level(
                    spectrum,
                    band_start(widths, b),
                    widths[b],
                    energy,
                    plus,
                    to_level,
                    zero,
                    #[trigger] levels[b],
                )
            &&& forall|b: int|
                0 <= b < NB_ERB ==> call_ensures(
                    decay,
                    (levels[b], before[b]),
                    #[trigger] after[b],
                )
            &&& forall|b: int|
                0 <= b < NB_ERB ==> call_ensures(centre, (levels[b], after[b]), #[trigger] out[b])
        };
    let total_at = |b: int|
        choose|total: S|
            {
                &&& worth(total) == energy_in(spectrum, en, sum(all.take(b)), all[b])
                &&& #[trigger] call_ensures(to_level, (total, widths[b]), levels[b])
            };
    let totals = Seq::new(32, total_at);
    assert forall|b: int| 0 <= b < 32 implies {
        &&& worth(#[trigger] totals[b]) == energy_in(spectrum, en, sum(all.take(b)), all[b])
        &&& feature_of(
            totals[b],
            widths[b],
            to_level,
            decay,
            centre,
            before[b],
            after[b],
            out[b],
        )
    } by {
        assert(as_ints(widths)[b] == widths[b]);
        assert(band_level(
            spectrum,
            band_start(widths, b),
            widths[b],
            energy,
            plus,
            to_level,
            zero,
            levels[b],
        ));
        let start = band_start(widths, b);
        let (energies, total) = choose|energies: Seq<S>, total: S|
            {
                &&& energies.len() == widths[b]
                &&& forall|k: int|
                    0 <= k < widths[b] ==> call_ensures(
                        energy,
                        (spectrum[start + k],),
                        #[trigger] energies[k],
                    )
                &&& #[trigger] crate::capture::sums_to(plus, zero, energies, total)
                &&& call_ensures(to_level, (total, widths[b]), levels[b])
            };
        crate::capture::lemma_sums_to_is_the_sum(plus, zero, energies, total, worth);
        assert(energies.map_values(worth) =~= Seq::new(
            widths[b] as nat,
            |k: int| en(spectrum[start + k]),
        ));
        assert(worth(total) == energy_in(spectrum, en, sum(all.take(b)), all[b]));
        assert(call_ensures(to_level, (total, widths[b]), levels[b]));
        assert(call_ensures(to_level, (totals[b], widths[b]), levels[b]));
        assert(call_ensures(decay, (levels[b], before[b]), after[b]));
        assert(call_ensures(centre, (levels[b], after[b]), out[b]));
    }
    let energies = totals.map_values(worth);
    lemma_energy_of_bands(spectrum, en, all, energies, 32);
    assert(all.take(32) =~= all);
    assert(energies.take(32) =~= energies);
    assert(Seq::new(481, |k: int| en(spectrum[0 + k])) =~= spectrum.map_values(en));
    totals
}

/// Bands do not mix: the feature of a band and its running mean follow from the
/// bins of that band and its own mean before, where the arithmetic is a function
/// of what it is given. Whatever else differs between two hops makes no
/// difference to it.
pub proof fn law_bands_do_not_mix<
    S,
    C,
    N: Fn(C) -> S,
    A: Fn(S, S) -> S,
    Q: Fn(S, usize) -> S,
    E: Fn(S, S) -> S,
    H: Fn(S, S) -> S,
>(
    widths: Seq<usize>,
    zero: S,
    spectrum: Seq<C>,
    other: Seq<C>,
    energy: N,
    plus: A,
    to_level: Q,
    decay: E,
    centre: H,
    before: Seq<S>,
    after: Seq<S>,
    out: Seq<S>,
    other_before: Seq<S>,
    other_after: Seq<S>,
    other_out: Seq<S>,
    b: int,
)
    requires
        0 <= b < 32,
        forall|c: C, u: S, v: S| #[trigger]
            call_ensures(energy, (c,), u) && #[trigger] call_ensures(energy, (c,), v) ==> u == v,
        forall|x: S, y: S, u: S, v: S| #[trigger]
            call_ensures(plus, (x, y), u) && #[trigger] call_ensures(plus, (x, y), v) ==> u == v,
        forall|x: S, n: usize, u: S, v: S| #[trigger]
            call_ensures(to_level, (x, n), u) && #[trigger] call_ensures(to_level, (x, n), v) ==> u
                == v,
        forall|x: S, y: S, u: S, v: S| #[trigger]
            call_ensures(decay, (x, y), u) && #[trigger] call_ensures(decay, (x, y), v) ==> u == v,
        forall|x: S, y: S, u: S, v: S| #[trigger]
            call_ensures(centre, (x, y), u) && #[trigger] call_ensures(centre, (x, y), v) ==> u
                == v,
        erb_features(
            widths,
            zero,
            spectrum,
            energy,
            plus,
            to_level,
            decay,
            centre,
            before,
            after,
            out,
        ),
        erb_features(
            widths,
            zero,
            other,
            energy,
            plus,
            to_level,
            decay,
            centre,
            other_before,
            other_after,
            other_out,
        ),
        before[b] == other_before[b],
        forall|k: int|
            sum(as_ints(widths).take(b)) <= k < sum(as_ints(widths).take(b)) + widths[b]
                ==> #[trigger] spectrum[k] == other[k],
    ensures
        after[b] == other_after[b],
        out[b] == other_out[b],
{
    let start = band_start(widths, b);
    let width = widths[b];
    let p = choose|levels: Seq<S>|
        #![trigger levels.len()]
        {
            &&& levels.len() == NB_ERB
            &&& forall|b: int|
                0 <= b < NB_ERB ==> band_level(
                    spectrum,
                    band_start(widths, b),
                    widths[b],
                    energy,
                    plus,
                    to_level,
                    zero,
                    #[trigger] levels[b],
                )
            &&& forall|b: int|
                0 <= b < NB_ERB ==> call_ensures(
                    decay,
                    (levels[b], before[b]),
                    #[trigger] after[b],
                )
            &&& forall|b: int|
                0 <= b < NB_ERB ==> call_ensures(centre, (levels[b], after[b]), #[trigger] out[b])
        };
    let q = choose|levels: Seq<S>|
        #![trigger levels.len()]
        {
            &&& levels.len() == NB_ERB
            &&& forall|b: int|
                0 <= b < NB_ERB ==> band_level(
                    other,
                    band_start(widths, b),
                    widths[b],
                    energy,
                    plus,
                    to_level,
                    zero,
                    #[trigger] levels[b],
                )
            &&& forall|b: int|
                0 <= b < NB_ERB ==> call_ensures(
                    decay,
                    (levels[b], other_before[b]),
                    #[trigger] other_after[b],
                )
            &&& forall|b: int|
                0 <= b < NB_ERB ==> call_ensures(
                    centre,
                    (levels[b], other_after[b]),
                    #[trigger] other_out[b],
                )
        };
    assert(band_level(spectrum, start, width, energy, plus, to_level, zero, p[b]));
    assert(band_level(other, start, width, energy, plus, to_level, zero, q[b]));
    let (pe, pt) = choose|energies: Seq<S>, total: S|
        {
            &&& energies.len() == width
            &&& forall|k: int|
                0 <= k < width ==> call_ensures(
                    energy,
                    (spectrum[start + k],),
                    #[trigger] energies[k],
                )
            &&& #[trigger] crate::capture::sums_to(plus, zero, energies, total)
            &&& call_ensures(to_level, (total, width), p[b])
        };
    let (qe, qt) = choose|energies: Seq<S>, total: S|
        {
            &&& energies.len() == width
            &&& forall|k: int|
                0 <= k < width ==> call_ensures(
                    energy,
                    (other[start + k],),
                    #[trigger] energies[k],
                )
            &&& #[trigger] crate::capture::sums_to(plus, zero, energies, total)
            &&& call_ensures(to_level, (total, width), q[b])
        };
    assert forall|k: int| 0 <= k < width implies #[trigger] pe[k] == qe[k] by {
        assert(spectrum[start + k] == other[start + k]);
        assert(call_ensures(energy, (other[start + k],), qe[k]));
    }
    assert(pe =~= qe);
    crate::capture::lemma_sums_are_one(plus, zero, pe, pt, qt);
    assert(p[b] == q[b]);
    assert(call_ensures(decay, (p[b], before[b]), after[b]));
    assert(call_ensures(decay, (q[b], other_before[b]), other_after[b]));
    assert(call_ensures(centre, (p[b], after[b]), out[b]));
    assert(call_ensures(centre, (q[b], other_after[b]), other_out[b]));
}

/// Low bins do not mix either: the feature of a bin and its running magnitude
/// follow from that bin and its own magnitude before.
pub proof fn law_bins_do_not_mix<S, C, E: Fn(C, S) -> S, U: Fn(C, S) -> C>(
    spectrum: Seq<C>,
    other: Seq<C>,
    decay: E,
    unit: U,
    before: Seq<S>,
    after: Seq<S>,
    out: Seq<C>,
    other_before: Seq<S>,
    other_after: Seq<S>,
    other_out: Seq<C>,
    i: int,
)
    requires
        0 <= i < 96,
        forall|c: C, x: S, u: S, v: S| #[trigger]
            call_ensures(decay, (c, x), u) && #[trigger] call_ensures(decay, (c, x), v) ==> u == v,
        forall|c: C, x: S, u: C, v: C| #[trigger]
            call_ensures(unit, (c, x), u) && #[trigger] call_ensures(unit, (c, x), v) ==> u == v,
        spec_features(spectrum, decay, unit, before, after, out),
        spec_features(other, decay, unit, other_before, other_after, other_out),
        spectrum[i] == other[i],
        before[i] == other_before[i],
    ensures
        after[i] == other_after[i],
        out[i] == other_out[i],
{
    assert(call_ensures(decay, (spectrum[i], before[i]), after[i]));
    assert(call_ensures(decay, (other[i], other_before[i]), other_after[i]));
    assert(call_ensures(unit, (spectrum[i], after[i]), out[i]));
    assert(call_ensures(unit, (other[i], other_after[i]), other_out[i]));
}

/// A low bin is normalised by its running magnitude as this very hop has moved
/// it, not by the one before. `moved` is what the running magnitude moves to, and
/// `over` a bin over a magnitude.
pub proof fn law_low_bins_are_normalised_by_the_moved_magnitude<
    S,
    C,
    E: Fn(C, S) -> S,
    U: Fn(C, S) -> C,
>(
    spectrum: Seq<C>,
    decay: E,
    unit: U,
    before: Seq<S>,
    after: Seq<S>,
    out: Seq<C>,
    moved: spec_fn(C, S) -> S,
    over: spec_fn(C, S) -> C,
)
    requires
        forall|c: C, x: S, v: S| #[trigger] call_ensures(decay, (c, x), v) ==> v == moved(c, x),
        forall|c: C, x: S, v: C| #[trigger] call_ensures(unit, (c, x), v) ==> v == over(c, x),
        spec_features(spectrum, decay, unit, before, after, out),
    ensures
        out.len() == 96,
        forall|i: int|
            0 <= i < 96 ==> #[trigger] out[i] == over(spectrum[i], moved(spectrum[i], before[i])),
        forall|i: int| 0 <= i < 96 ==> #[trigger] after[i] == moved(spectrum[i], before[i]),
{
    assert forall|i: int| 0 <= i < 96 implies #[trigger] after[i] == moved(
        spectrum[i],
        before[i],
    ) by {
        assert(call_ensures(decay, (spectrum[i], before[i]), after[i]));
    }
    assert forall|i: int| 0 <= i < 96 implies #[trigger] out[i] == over(
        spectrum[i],
        moved(spectrum[i], before[i]),
    ) by {
        assert(call_ensures(unit, (spectrum[i], after[i]), out[i]));
        assert(after[i] == moved(spectrum[i], before[i]));
    }
}

} // verus!
