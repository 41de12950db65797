//! The pipeline between the two rings, and the decisions taken before it runs.
use vstd::prelude::*;
use vstd::string::StringExecFns;

use crate::config::Config;
use crate::denoiser::{Denoiser, DenoiserHost};
use crate::devices::{
    device_names, known_cable_products, resolve_capture, resolve_render, Device,
};
use crate::error::{AudioError, DspError};
use crate::ring::{RingReceiver, RingSender};
use crate::text::{is_empty, join};
use crate::Frame;

verus! {

/// What `format!("{:?}", s)` makes of a string: the text in double quotes, with
/// what cannot be printed escaped.
pub uninterp spec fn quoted(s: Seq<char>) -> Seq<char>;

/// Rust's debug formatting of a string.
#[verifier::external_body]
pub(crate) fn quote(s: &str) -> (r: String)
    ensures
        r@ == quoted(s@),
{
    format!("{:?}", s)
}

/// Why the audio could not be started.
#[derive(Debug)]
pub struct StartFailure {
    /// What the user is told.
    pub message: String,
    /// The failure underneath, where there was one.
    pub cause: Option<AudioError>,
}

impl StartFailure {
    /// The message, and behind it the failure underneath.
    pub fn details(&self) -> (r: String)
        ensures
            r@ == (match self.cause {
                Some(cause) => self.message@ + ": "@ + cause.spec_text(),
                None => self.message@,
            }),
    {
        let mut text = self.message.clone();
        if let Some(cause) = &self.cause {
            text.append(": ");
            text.append(cause.text().as_str());
        }
        text
    }
}

/// Whether the failure comes down to there being no virtual cable, which has a
/// scripted way out.
pub fn is_missing_cable(failure: &StartFailure) -> (r: bool)
    ensures
        r == (failure.cause matches Some(AudioError::VirtualCableMissing)),
{
    match &failure.cause {
        Some(AudioError::VirtualCableMissing) => true,
        _ => false,
    }
}

/// The devices that a run uses.
#[derive(Debug)]
pub struct Route {
    pub input: Device,
    pub output: Device,
}

/// What is said when the configured microphone is not there. `shown` is its
/// name in quotes.
pub open spec fn microphone_missing(shown: Seq<char>) -> Seq<char> {
    "microphone "@ + shown
        + " is not available (unplugged?). Pick one from the tray menu"@
}

/// What is said when the configured microphone is not there. `shown` is its
/// name in quotes.
pub fn microphone_missing_text(shown: &str) -> (r: String)
    ensures
        r@ == microphone_missing(shown@),
{
    let mut out = "microphone ".to_owned();
    out.append(shown);
    out.append(" is not available (unplugged?). Pick one from the tray menu");
    out
}

/// What is said when the microphone is the far end of the cable that the
/// cleaned audio goes into.
pub open spec fn cable_loop(product: Seq<char>) -> Seq<char> {
    "the selected microphone is "@ + product
        + "'s own output, which is where NoiseGate sends audio — routing it back in would loop. Pick a real microphone from the tray menu"@
}

/// What is said when there is no virtual cable. `known` are the products that
/// were looked for.
pub open spec fn cable_missing(known: Seq<Seq<char>>) -> Seq<char> {
    "no virtual audio cable is installed (looked for "@ + crate::text::joined(known, ", "@)
        + "). Cleaned audio needs one so other apps can hear it as a microphone. Install VB-Cable, or name one in output_device"@
}

/// What keeps a run from starting, if anything does.
///
/// `input` is the microphone that the configuration resolves to, with the
/// virtual cable that it is the output of, if any.
pub open spec fn start_refusal(
    input_device: Seq<char>,
    input: Option<(Device, Option<String>)>,
    output: Result<Device, AudioError>,
    known: Seq<Seq<char>>,
) -> Option<Seq<char>> {
    match input {
        None => Some(
            if input_device.len() == 0 {
                "no microphone is available"@
            } else {
                microphone_missing(quoted(input_device))
            },
        ),
        Some((_, Some(product))) => Some(cable_loop(product@)),
        Some((_, None)) => if output is Err {
            Some(cable_missing(known))
        } else {
            None
        },
    }
}

/// Choose the devices of a run, or say why there can be none.
///
/// It fails closed: without a virtual cable nothing is played anywhere, and a
/// microphone that is the cable's own output is refused, because the cable
/// would feed itself.
pub fn plan_route(
    input_device: &str,
    input: Option<(Device, Option<String>)>,
    output: Result<Device, AudioError>,
    known_cables: &Vec<String>,
) -> (r: Result<Route, StartFailure>)
    ensures
        ({
            let refusal = start_refusal(
                input_device@,
                input,
                output,
                crate::text::views(known_cables@),
            );
            &&& r is Ok <==> refusal is None
            &&& r matches Ok(route) ==> input matches Some((microphone, None)) && route.input
                == microphone && output == Ok::<Device, AudioError>(route.output)
            &&& r matches Err(failure) ==> Some(failure.message@) == refusal && failure.cause == (
            match (input, output) {
                (Some((_, None)), Err(cause)) => Some(cause),
                _ => None,
            })
        }),
{
    let (input, cable) = match input {
        Some((device, cable)) => (device, cable),
        None => {
            let message = if is_empty(input_device) {
                "no microphone is available".to_owned()
            } else {
                microphone_missing_text(quote(input_device).as_str())
            };
            return Err(StartFailure { message, cause: None });
        },
    };
    if let Some(product) = cable {
        let mut message = "the selected microphone is ".to_owned();
        message.append(product.as_str());
        message.append(
            "'s own output, which is where NoiseGate sends audio — routing it back in would loop. Pick a real microphone from the tray menu",
        );
        return Err(StartFailure { message, cause: None });
    }
    match output {
        Ok(output) => Ok(Route { input, output }),
        Err(cause) => {
            let mut message = "no virtual audio cable is installed (looked for ".to_owned();
            let list = join(known_cables, ", ");
            message.append(list.as_str());
            message.append(
                "). Cleaned audio needs one so other apps can hear it as a microphone. Install VB-Cable, or name one in output_device",
            );
            Err(StartFailure { message, cause: Some(cause) })
        },
    }
}

/// The microphone that the settings stand for, of those that are there.
pub open spec fn wanted_input(cfg: Config, capture: Seq<Device>) -> Option<Device> {
    crate::devices::wanted_capture(capture, cfg.wanted(crate::devices::names_of(capture)))
}

/// The output that the settings stand for, of those that are there.
pub open spec fn wanted_output(cfg: Config, render: Seq<Device>) -> Option<Device> {
    crate::devices::wanted_render(render, cfg.output_device@)
}

/// What keeps the settings from being put into effect on the devices there
/// are, if anything does.
pub open spec fn route_refusal(cfg: Config, capture: Seq<Device>, render: Seq<Device>) -> Option<
    Seq<char>,
> {
    let name = cfg.wanted(crate::devices::names_of(capture));
    match wanted_input(cfg, capture) {
        None => Some(
            if name.len() == 0 {
                "no microphone is available"@
            } else {
                microphone_missing(quoted(name))
            },
        ),
        Some(input) => match crate::devices::cable_of(input) {
            Some(product) => Some(cable_loop(product)),
            None => if wanted_output(cfg, render) is None {
                Some(
                    cable_missing(seq!["VB-Cable"@, "VoiceMeeter"@, "Virtual Audio Cable"@]),
                )
            } else {
                None
            },
        },
    }
}

/// Find the devices that the settings stand for among those that are there,
/// or say why a run cannot start. Names become identifiers here, afresh on
/// every start.
pub fn route_for(cfg: &Config, capture: &Vec<Device>, render: &Vec<Device>) -> (r: Result<
    Route,
    StartFailure,
>)
    ensures
        r is Ok <==> route_refusal(*cfg, capture@, render@) is None,
        r matches Ok(route) ==> {
            &&& wanted_input(*cfg, capture@) == Some(route.input)
            &&& wanted_output(*cfg, render@) == Some(route.output)
            &&& crate::devices::cable_of(route.input) is None
        },
        r matches Err(failure) ==> {
            &&& Some(failure.message@) == route_refusal(*cfg, capture@, render@)
            &&& failure.cause == (if wanted_input(*cfg, capture@) matches Some(input)
                && crate::devices::cable_of(input) is None {
                Some(AudioError::VirtualCableMissing)
            } else {
                None
            })
        },
{
    let names = device_names(capture);
    let name = cfg.wanted_microphone(&names);
    let input: Option<(Device, Option<String>)> = match resolve_capture(capture, name.as_str()) {
        Some(i) => {
            let cable: Option<String> = match capture[i].virtual_cable() {
                Some(product) => Some(product.to_owned()),
                None => None,
            };
            Some((capture[i].copy(), cable))
        },
        None => None,
    };
    let output: Result<Device, AudioError> = match resolve_render(
        render,
        cfg.output_device.as_str(),
    ) {
        Some(i) => Ok(render[i].copy()),
        None => Err(AudioError::VirtualCableMissing),
    };
    let known = known_cable_products();
    plan_route(name.as_str(), input, output, &known)
}

/// A run that starts records from a microphone that is there and is no cable's
/// own output, and plays to a device that is there and was named or is a
/// virtual cable. It never falls back to whatever the default output is.
pub proof fn law_routing_fails_closed(cfg: Config, capture: Seq<Device>, render: Seq<Device>)
    requires
        route_refusal(cfg, capture, render) is None,
    ensures
        wanted_input(cfg, capture) matches Some(input) && capture.contains(input)
            && crate::devices::cable_of(input) is None,
        wanted_output(cfg, render) matches Some(output) && render.contains(output) && (
        if cfg.output_device@.len() == 0 {
            crate::devices::cable_of(output) is Some
        } else {
            crate::devices::stable_name(output.friendly_name@) == crate::devices::stable_name(
                cfg.output_device@,
            )
        }),
{
    let name = cfg.wanted(crate::devices::names_of(capture));
    crate::devices::lemma_first_wanted_is_wanted(capture, crate::devices::default_one());
    crate::devices::lemma_named(capture, name);
    crate::devices::lemma_first_wanted_is_wanted(render, crate::devices::cable_end());
    crate::devices::lemma_named(render, cfg.output_device@);
}

/// The remembered microphones never strand the user: as long as Windows has a
/// default, some microphone is found, whichever of the remembered ones are
/// there.
pub proof fn law_some_microphone_is_always_found(cfg: Config, capture: Seq<Device>, default: int)
    requires
        cfg.microphones@.len() > 0 || cfg.input_device@.len() == 0,
        0 <= default < capture.len(),
        capture[default].is_default,
    ensures
        wanted_input(cfg, capture) is Some,
{
    let names = crate::devices::names_of(capture);
    let name = cfg.wanted(names);
    crate::config::law_the_list_never_strands_the_user(cfg.remembered(), names, 0);
    if name.len() == 0 {
        crate::devices::lemma_some_wanted(capture, crate::devices::default_one(), default);
    } else {
        let i = choose|i: int|
            0 <= i < names.len() && crate::devices::stable_name(#[trigger] names[i])
                == crate::devices::stable_name(name);
        assert(names[i] == capture[i].friendly_name@);
        crate::devices::lemma_some_wanted(capture, crate::devices::goes_by_about(name), i);
    }
}

/// A gap this long in the microphone's audio is worth a warning.
pub const GAP_AFTER_NS: u64 = 2_000_000_000;

/// How long the denoiser's thread sleeps when there is nothing to do.
pub const IDLE_SLEEP_MS: u32 = 2;

/// Watches for the microphone falling silent in the literal sense: no frames
/// at all. An empty ring is no news by itself, because the thread looks more
/// often than frames arrive.
#[derive(Debug, Clone, Copy, PartialEq, Eq, Structural)]
pub struct GapWatch {
    /// When the last frame came, in nanoseconds of the run.
    pub last_frame_ns: u64,
    /// The gap that is going on has been reported.
    pub reported: bool,
}

impl GapWatch {
    /// A watch that takes the given moment for the last frame.
    pub fn new(now_ns: u64) -> (r: Self)
        ensures
            r == (GapWatch { last_frame_ns: now_ns, reported: false }),
    {
        GapWatch { last_frame_ns: now_ns, reported: false }
    }

    /// The time since the last frame.
    pub open spec fn gap(&self, now_ns: u64) -> int {
        if now_ns >= self.last_frame_ns {
            now_ns - self.last_frame_ns
        } else {
            0
        }
    }

    /// Finding no frame calls for a report: the gap is long and has not been
    /// reported.
    pub open spec fn reports(&self, now_ns: u64) -> bool {
        !self.reported && self.gap(now_ns) > GAP_AFTER_NS
    }

    /// The watch after no frame was found.
    pub open spec fn after_idle(&self, now_ns: u64) -> GapWatch {
        GapWatch {
            last_frame_ns: self.last_frame_ns,
            reported: self.reported || self.reports(now_ns),
        }
    }

    /// There was no frame. Returns the length of a gap that has to be
    /// reported: each gap is, once.
    pub fn idle(&mut self, now_ns: u64) -> (r: Option<u64>)
        ensures
            r is Some <==> old(self).reports(now_ns),
            r matches Some(gap) ==> gap == old(self).gap(now_ns),
            *final(self) == old(self).after_idle(now_ns),
    {
        let gap: u64 = if now_ns >= self.last_frame_ns {
            now_ns - self.last_frame_ns
        } else {
            0
        };
        if !self.reported && gap > GAP_AFTER_NS {
            self.reported = true;
            Some(gap)
        } else {
            None
        }
    }

    /// There was a frame. Returns whether it ends a gap that was reported.
    pub fn frame(&mut self, now_ns: u64) -> (resumed: bool)
        ensures
            resumed == old(self).reported,
            *final(self) == (GapWatch { last_frame_ns: now_ns, reported: false }),
    {
        let resumed = self.reported;
        self.reported = false;
        self.last_frame_ns = now_ns;
        resumed
    }
}

/// A gap is reported once: after it was, finding no frame changes nothing and
/// calls for nothing until a frame has come.
pub proof fn law_a_gap_is_reported_once(watch: GapWatch, now_ns: u64, later_ns: u64)
    requires
        watch.reports(now_ns),
    ensures
        !watch.after_idle(now_ns).reports(later_ns),
        watch.after_idle(now_ns).after_idle(later_ns) == watch.after_idle(now_ns),
{
}

/// What one turn of the denoiser's thread came to.
#[derive(Debug)]
pub enum DspTurn {
    /// No frame had arrived. A gap that is due to be reported has this length.
    Idle { report_gap_ns: Option<u64> },
    /// A frame was processed.
    Processed {
        /// It ended a gap that had been reported.
        resumed: bool,
        /// What the denoiser said. A frame it failed on goes on as it left it.
        outcome: Result<(), DspError>,
        /// The next ring had no room, so the frame was dropped.
        dropped: bool,
    },
}

/// What the denoiser's thread does with what it found in the ring: nothing, or
/// run the frame through the denoiser. Returns the frame to pass on.
pub fn dsp_step<S, D: Denoiser<S>>(
    host: &mut DenoiserHost<D>,
    watch: &mut GapWatch,
    popped: Option<Frame<S>>,
    now_ns: u64,
) -> (r: (Option<Frame<S>>, DspTurn))
    ensures
        r.0 is Some <==> popped is Some,
        final(host).spec_bypass() == old(host).spec_bypass(),
        popped is None ==> {
            &&& *final(host) == *old(host)
            &&& *final(watch) == old(watch).after_idle(now_ns)
            &&& r.1 matches DspTurn::Idle { report_gap_ns } && {
                &&& report_gap_ns is Some <==> old(watch).reports(now_ns)
                &&& report_gap_ns matches Some(gap) ==> gap == old(watch).gap(now_ns)
            }
        },
        popped matches Some(frame) ==> {
            &&& *final(watch) == (GapWatch { last_frame_ns: now_ns, reported: false })
            &&& r.1 matches DspTurn::Processed { resumed, outcome, dropped } && {
                &&& resumed == old(watch).reported
                &&& !dropped
                &&& old(host).spec_bypass() ==> {
                    &&& outcome is Ok
                    &&& r.0 == Some(frame)
                    &&& final(host).spec_inner() == old(host).spec_inner()
                    &&& final(host).spec_stats() == old(host).spec_stats().after_bypass()
                }
                &&& !old(host).spec_bypass() ==> {
                    &&& old(host).spec_inner().denoises(
                        frame,
                        &final(host).spec_inner(),
                        r.0->0,
                        outcome,
                    )
                    &&& exists|elapsed_ns: u64|
                        crate::denoiser::is_measured(elapsed_ns) && final(host).spec_stats()
                            == #[trigger] old(host).spec_stats().after_frame(elapsed_ns)
                }
            }
        },
{
    match popped {
        None => (None, DspTurn::Idle { report_gap_ns: watch.idle(now_ns) }),
        Some(popped_frame) => {
            let mut frame = popped_frame;
            let resumed = watch.frame(now_ns);
            let outcome = host.process(&mut frame);
            (Some(frame), DspTurn::Processed { resumed, outcome, dropped: false })
        },
    }
}

/// The denoiser, going from `before` to `after` with the given outcome, made
/// `cleaned` of `noisy`. Bypassed, it hands the frame on as it is.
pub open spec fn makes<S, D: Denoiser<S>>(
    before: DenoiserHost<D>,
    noisy: Frame<S>,
    after: DenoiserHost<D>,
    cleaned: Frame<S>,
    outcome: Result<(), DspError>,
) -> bool {
    if before.spec_bypass() {
        cleaned == noisy
    } else {
        before.spec_inner().denoises(noisy, &after.spec_inner(), cleaned, outcome)
    }
}

/// One turn of the denoiser's thread: take a frame from the first ring, run it
/// through the denoiser, put it into the second. A full second ring costs the
/// frame, because waiting would cost more.
///
/// It looks for a frame once. Whether there is one, and room for it then,
/// depends on the threads at the rings' other ends. What is taken is what is
/// passed on.
pub fn dsp_turn<S, D: Denoiser<S>>(
    host: &mut DenoiserHost<D>,
    watch: &mut GapWatch,
    from: &mut RingReceiver<Frame<S>>,
    to: &mut RingSender<Frame<S>>,
    now_ns: u64,
) -> (r: DspTurn)
    ensures
        final(from).polls() == old(from).polls().push(final(from).polls().last()),
        r is Idle <==> final(from).polls().last() is None,
        final(from).spec_room() == old(from).spec_room(),
        final(to).spec_room() == old(to).spec_room(),
        final(host).spec_bypass() == old(host).spec_bypass(),
        r matches DspTurn::Idle { report_gap_ns } ==> {
            &&& final(from).received() == old(from).received()
            &&& final(to).sent() == old(to).sent()
            &&& *final(host) == *old(host)
            &&& *final(watch) == old(watch).after_idle(now_ns)
            &&& report_gap_ns is Some <==> old(watch).reports(now_ns)
            &&& report_gap_ns matches Some(gap) ==> gap == old(watch).gap(now_ns)
        },
        r matches DspTurn::Processed { outcome, dropped, .. } ==> {
            &&& exists|noisy: Frame<S>, cleaned: Frame<S>|
                {
                    &&& #[trigger] makes(*old(host), noisy, *final(host), cleaned, outcome)
                    &&& final(from).received() == old(from).received().push(noisy)
                    &&& final(to).sent() == (if dropped {
                        old(to).sent()
                    } else {
                        old(to).sent().push(cleaned)
                    })
                }
            &&& dropped ==> old(to).sent().len() >= old(to).spec_room()
        },
        r matches DspTurn::Processed { resumed, outcome, .. } ==> {
            &&& *final(watch) == (GapWatch { last_frame_ns: now_ns, reported: false })
            &&& resumed == old(watch).reported
            &&& old(host).spec_bypass() ==> outcome is Ok && final(host).spec_inner() == old(
                host,
            ).spec_inner() && final(host).spec_stats() == old(host).spec_stats().after_bypass()
            &&& !old(host).spec_bypass() ==> exists|elapsed_ns: u64|
                crate::denoiser::is_measured(elapsed_ns) && final(host).spec_stats()
                    == #[trigger] old(host).spec_stats().after_frame(elapsed_ns)
        },
{
    let popped = from.pop();
    let (frame, turn) = dsp_step(host, watch, popped, now_ns);
    match (frame, turn) {
        (Some(frame), DspTurn::Processed { resumed, outcome, .. }) => {
            let ghost cleaned = frame;
            let dropped = match to.push(frame) {
                Ok(()) => false,
                Err(_) => true,
            };
            assert(makes(*old(host), popped->0, *host, cleaned, outcome));
            DspTurn::Processed { resumed, outcome, dropped }
        },
        (_, turn) => turn,
    }
}

/// The least time between two reports that the denoiser cannot keep up.
pub const UNDERRUN_REPORT_NS: u64 = 5_000_000_000;

/// Keeps reports of underruns from flooding the log.
#[derive(Debug, Clone, Copy, PartialEq, Eq, Structural)]
pub struct UnderrunLog {
    /// When an underrun was last reported, if one ever was.
    pub last_ns: Option<u64>,
}

impl UnderrunLog {
    /// Nothing has been reported.
    pub fn new() -> (r: Self)
        ensures
            r.last_ns is None,
    {
        UnderrunLog { last_ns: None }
    }

    /// An underrun is worth reporting now: the first one, or one long enough
    /// after the last report.
    pub open spec fn due(&self, now_ns: u64) -> bool {
        self.last_ns matches Some(last) ==> now_ns - last > UNDERRUN_REPORT_NS
    }

    /// The log after an underrun.
    pub open spec fn after_underrun(&self, now_ns: u64) -> UnderrunLog {
        if self.due(now_ns) {
            UnderrunLog { last_ns: Some(now_ns) }
        } else {
            *self
        }
    }

    /// An underrun happened. Returns whether to report it: the first one, and
    /// then one at most every five seconds.
    pub fn on_underrun(&mut self, now_ns: u64) -> (r: bool)
        ensures
            r == old(self).due(now_ns),
            *final(self) == old(self).after_underrun(now_ns),
    {
        let due = match self.last_ns {
            None => true,
            Some(last) => now_ns > last && now_ns - last > UNDERRUN_REPORT_NS,
        };
        if due {
            self.last_ns = Some(now_ns);
        }
        due
    }
}

/// Underruns do not flood the log: after one was reported, none within five
/// seconds of it is, and neither does it put the next report off.
pub proof fn law_underruns_do_not_flood_the_log(log: UnderrunLog, now_ns: u64, later_ns: u64)
    requires
        log.due(now_ns),
        later_ns <= now_ns + UNDERRUN_REPORT_NS,
    ensures
        !log.after_underrun(now_ns).due(later_ns),
        log.after_underrun(now_ns).after_underrun(later_ns) == log.after_underrun(now_ns),
{
}

} // verus!
