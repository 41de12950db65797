//! Starting up: the conversations with a new user, and what a failed start
//! leads to.
//!
//! The texts are in plain language. Someone who installs a noise-cancelling
//! program has no reason to know what a virtual audio endpoint is.
use vstd::prelude::*;
use vstd::string::StringExecFns;

use crate::pipeline::{is_missing_cable, StartFailure};

verus! {

/// The vendor's page rather than an installer: the licence terms and the
/// current signed build are both there.
pub const CABLE_URL: &'static str = "https://vb-audio.com/Cable/";

/// Where the model comes from.
pub const MODEL_SOURCE_URL: &'static str = "https://github.com/Rikorose/DeepFilterNet";

/// What is said when there is no virtual cable.
pub const CABLE_MISSING_TEXT: &'static str = "NoiseGate cleans up your microphone, but it needs one more free program to pass the cleaned sound on to Zoom, Teams, Discord and so on.\n\nThat program is called VB-Cable. It acts like a second microphone that other apps can listen to. Without it, NoiseGate has nowhere to send your voice.\n\nIt takes about two minutes to install and it's free.\n\nYes  —  open the VB-Cable download page\nNo   —  close NoiseGate for now\n\n(Choosing No also stops NoiseGate starting with Windows, so you won't see this message every time you switch on your PC.)";

/// What the user chose to do about a missing cable.
#[derive(Debug, Clone, Copy, PartialEq, Eq, Structural)]
pub enum CableChoice {
    OpenSite,
    Close,
}

/// What the answer to [`CABLE_MISSING_TEXT`] means.
pub fn cable_missing(yes: bool) -> (r: CableChoice)
    ensures
        r == (if yes {
            CableChoice::OpenSite
        } else {
            CableChoice::Close
        }),
{
    if yes {
        CableChoice::OpenSite
    } else {
        CableChoice::Close
    }
}

/// What is done after the user chose.
#[derive(Debug, Clone, Copy, PartialEq, Eq, Structural)]
pub enum CableFollowUp {
    /// Open the vendor's page.
    OpenCablePage,
    /// Stop starting with Windows.
    TurnOffAutostart,
    /// Nothing but ending the run.
    Nothing,
}

/// Carry out the user's choice. Closing also switches off starting with
/// Windows, or the same dialog would greet them on every boot.
pub fn after_cable_choice(choice: CableChoice, autostart: bool) -> (r: CableFollowUp)
    ensures
        r == (match choice {
            CableChoice::OpenSite => CableFollowUp::OpenCablePage,
            CableChoice::Close => if autostart {
                CableFollowUp::TurnOffAutostart
            } else {
                CableFollowUp::Nothing
            },
        }),
{
    match choice {
        CableChoice::OpenSite => CableFollowUp::OpenCablePage,
        CableChoice::Close => if autostart {
            CableFollowUp::TurnOffAutostart
        } else {
            CableFollowUp::Nothing
        },
    }
}

/// What is asked before the model is used: where it comes from, and that its
/// terms are its own.
pub fn model_licence_text() -> (r: String)
    ensures
        r@ == "The high-quality noise removal uses DeepFilterNet3, a speech model published by its authors at:\n\n    "@
            + MODEL_SOURCE_URL@
            + "\n\nIt is a separate work from NoiseGate, with its own licence terms. NoiseGate does not include or redistribute it — you obtain it from the source above and accept those terms yourself.\n\nYes  —  I accept the model's terms and want to use it\nNo   —  stay on the simpler built-in noise removal\n\nYou can change this later from the tray menu."@,
{
    let mut text = "The high-quality noise removal uses DeepFilterNet3, a speech model published by its authors at:\n\n    ".to_owned();
    text.append(MODEL_SOURCE_URL);
    text.append(
        "\n\nIt is a separate work from NoiseGate, with its own licence terms. NoiseGate does not include or redistribute it — you obtain it from the source above and accept those terms yourself.\n\nYes  —  I accept the model's terms and want to use it\nNo   —  stay on the simpler built-in noise removal\n\nYou can change this later from the tray menu.",
    );
    text
}

/// Whether the model's terms were accepted: only by a yes.
pub fn model_licence(yes: bool) -> (accepted: bool)
    ensures
        accepted == yes,
{
    yes
}

/// What is said when the model is chosen and not there: where to get it and
/// where to put it.
pub fn model_missing(expected: &str) -> (r: String)
    ensures
        r@ == "The high-quality model isn't installed yet.\n\nDownload the DeepFilterNet3 ONNX export from:\n\n    "@
            + MODEL_SOURCE_URL@ + "\n\nand save it as:\n\n    "@ + expected@
            + "\n\nNoiseGate will use it the next time you pick it from the Denoiser menu. Until then it stays on the built-in noise removal."@,
{
    let mut text = "The high-quality model isn't installed yet.\n\nDownload the DeepFilterNet3 ONNX export from:\n\n    ".to_owned();
    text.append(MODEL_SOURCE_URL);
    text.append("\n\nand save it as:\n\n    ");
    text.append(expected);
    text.append(
        "\n\nNoiseGate will use it the next time you pick it from the Denoiser menu. Until then it stays on the built-in noise removal.",
    );
    text
}

/// Another instance is running. It is already doing the job, so this is no
/// failure.
#[derive(Debug, Clone, Copy, PartialEq, Eq, Structural)]
pub struct AlreadyRunning;

/// What asking for the session's lock came to.
#[derive(Debug, Clone, Copy, PartialEq, Eq, Structural)]
pub enum LockRequest {
    /// The lock is new and ours.
    Created,
    /// Someone else had it already.
    Existed,
    /// It could not be asked for.
    Unavailable,
}

/// The name of the session's lock. It is local to the session: a name that the
/// whole machine sees could be taken by anyone, and needs a privilege that
/// ordinary accounts lack.
pub const LOCK_NAME: &'static str = "Local\\NoiseGate.SingleInstance";

/// Whether this instance may run, and whether it holds the lock. Not knowing
/// whether it is alone does not keep it from running.
pub fn acquire(request: LockRequest) -> (r: Result<bool, AlreadyRunning>)
    ensures
        r is Err <==> request is Existed,
        r matches Ok(held) ==> held == (request is Created),
{
    match request {
        LockRequest::Created => Ok(true),
        LockRequest::Existed => Err(AlreadyRunning),
        LockRequest::Unavailable => Ok(false),
    }
}

/// What went wrong at startup, and whether the tray can offer a way out.
#[derive(Debug)]
pub struct StartupProblem {
    pub message: String,
    /// The fix is to install a virtual audio cable.
    pub missing_cable: bool,
}

/// What a failed start leads to.
#[derive(Debug)]
pub enum StartupOutcome {
    /// Offer to get a virtual cable, and end the run.
    OfferCable,
    /// Show the tray all the same, so that the user has the menu at hand, and
    /// tell them what is wrong.
    ShowProblem(StartupProblem),
}

/// Decide what a failed start leads to. `details` is the whole chain of
/// causes.
pub fn on_start_failure(failure: &StartFailure, details: &str) -> (r: StartupOutcome)
    ensures
        r is OfferCable <==> (failure.cause matches Some(
            crate::error::AudioError::VirtualCableMissing,
        )),
        r matches StartupOutcome::ShowProblem(problem) ==> {
            &&& !problem.missing_cable
            &&& problem.message@ == "NoiseGate is running, but audio isn't:\n\n"@ + details@
        },
{
    if is_missing_cable(failure) {
        return StartupOutcome::OfferCable;
    }
    let mut message = "NoiseGate is running, but audio isn't:\n\n".to_owned();
    message.append(details);
    StartupOutcome::ShowProblem(StartupProblem { message, missing_cable: false })
}

/// The dialog that a startup problem is shown in.
#[derive(Debug)]
pub enum ProblemDialog {
    /// Offer to open the vendor's page.
    AskCablePage(String),
    /// Just say it.
    Tell(String),
}

/// How a startup problem is shown.
pub fn problem_dialog(problem: StartupProblem) -> (r: ProblemDialog)
    ensures
        match r {
            ProblemDialog::AskCablePage(text) => problem.missing_cable && text@
                == problem.message@
                + "\n\nA virtual audio cable is what lets other apps hear the cleaned microphone. Open the VB-Cable download page now?"@,
            ProblemDialog::Tell(text) => !problem.missing_cable && text@ == problem.message@,
        },
{
    if problem.missing_cable {
        let mut text = problem.message;
        text.append(
            "\n\nA virtual audio cable is what lets other apps hear the cleaned microphone. Open the VB-Cable download page now?",
        );
        ProblemDialog::AskCablePage(text)
    } else {
        ProblemDialog::Tell(problem.message)
    }
}

/// What is said when `--mic` names no single microphone.
pub fn mic_override_failure(filter: &str, why: &str) -> (r: String)
    ensures
        r@ == "--mic '"@ + filter@ + "' did not match any input device: "@ + why@,
{
    let mut text = "--mic '".to_owned();
    text.append(filter);
    text.append("' did not match any input device: ");
    text.append(why);
    text
}

/// Where a fatal error goes: to the console where there is one, else to a
/// dialog, which is then the only way the user learns anything.
#[derive(Debug, Clone, Copy, PartialEq, Eq, Structural)]
pub enum FatalReport {
    Console,
    Dialog,
}

/// Where a fatal error goes.
pub fn fatal_report(has_console: bool) -> (r: FatalReport)
    ensures
        r == (if has_console {
            FatalReport::Console
        } else {
            FatalReport::Dialog
        }),
{
    if has_console {
        FatalReport::Console
    } else {
        FatalReport::Dialog
    }
}

} // verus!
