//! What can go wrong, as values the library decides on.
use vstd::prelude::*;
use vstd::string::StringExecFns;

use crate::text::is_empty;

verus! {

/// A failure of the audio engine or of the device behind it.
#[derive(Debug)]
pub enum AudioError {
    /// The device mixes a format that the audio loops cannot read as floats.
    UnsupportedFormat(String),
    /// The endpoint went away underneath a running stream.
    DeviceInvalidated { context: &'static str },
    /// No virtual audio cable is installed.
    VirtualCableMissing,
    /// An audio thread ended before it reported that it was ready.
    ThreadDied,
    /// Any other failed call into the audio engine.
    Wasapi { context: &'static str, detail: String },
    /// Anything else.
    Other(String),
}

/// The engine's code for an endpoint that is gone, as a signed number.
pub const DEVICE_INVALIDATED_CODE: i32 = -2004287484;

impl AudioError {
    /// A failed call into the audio engine. A device that went away is told
    /// apart from everything else.
    pub fn wasapi(context: &'static str, code: i32, detail: String) -> (r: Self)
        ensures
            r == (if code == DEVICE_INVALIDATED_CODE {
                AudioError::DeviceInvalidated { context }
            } else {
                AudioError::Wasapi { context, detail }
            }),
    {
        if code == DEVICE_INVALIDATED_CODE {
            AudioError::DeviceInvalidated { context }
        } else {
            AudioError::Wasapi { context, detail }
        }
    }

    /// The text a user is shown.
    pub open spec fn spec_text(&self) -> Seq<char> {
        match self {
            AudioError::UnsupportedFormat(why) => "unsupported device format: "@ + why@,
            AudioError::DeviceInvalidated { context } => context@ + ": the device went away"@,
            AudioError::VirtualCableMissing => "no virtual audio cable found"@,
            AudioError::ThreadDied => "the audio thread ended before it was ready"@,
            AudioError::Wasapi { context, detail } => context@ + (if detail@.len() == 0 {
                " failed"@
            } else {
                " failed: "@ + detail@
            }),
            AudioError::Other(detail) => detail@,
        }
    }

    /// The text a user is shown.
    pub fn text(&self) -> (r: String)
        ensures
            r@ == self.spec_text(),
    {
        match self {
            AudioError::UnsupportedFormat(why) => "unsupported device format: ".to_owned().concat(
                why.as_str(),
            ),
            AudioError::DeviceInvalidated { context } => (*context).to_owned().concat(
                ": the device went away",
            ),
            AudioError::VirtualCableMissing => "no virtual audio cable found".to_owned(),
            AudioError::ThreadDied => "the audio thread ended before it was ready".to_owned(),
            AudioError::Wasapi { context, detail } => {
                let mut text = (*context).to_owned();
                if is_empty(detail.as_str()) {
                    text.append(" failed");
                } else {
                    text.append(" failed: ");
                    text.append(detail.as_str());
                }
                assert(text@ =~= self.spec_text());
                text
            },
            AudioError::Other(detail) => detail.clone(),
        }
    }

    /// A stream that lost its device can be reopened on a freshly resolved
    /// one. No other failure goes away by itself.
    pub open spec fn spec_recoverable(&self) -> bool {
        self is DeviceInvalidated
    }

    /// Whether reopening the stream can help.
    pub fn is_recoverable(&self) -> (r: bool)
        ensures
            r == self.spec_recoverable(),
    {
        match self {
            AudioError::DeviceInvalidated { .. } => true,
            _ => false,
        }
    }
}

/// What opening a stream came to. `reported` is what its thread said once it
/// was ready or had failed, `None` where it ended without a word.
pub fn stream_opened(reported: Option<Result<(), AudioError>>) -> (r: Result<(), AudioError>)
    ensures
        r == (match reported {
            Some(result) => result,
            None => Err(AudioError::ThreadDied),
        }),
{
    match reported {
        Some(result) => result,
        None => Err(AudioError::ThreadDied),
    }
}

/// A failure of a denoiser.
#[derive(Debug)]
pub enum DspError {
    Load(String),
    Inference(String),
    Other(String),
}

impl DspError {
    /// The text a user is shown.
    pub open spec fn spec_text(&self) -> Seq<char> {
        match self {
            DspError::Load(detail) => "model load failed: "@ + detail@,
            DspError::Inference(detail) => "inference failed: "@ + detail@,
            DspError::Other(detail) => detail@,
        }
    }

    /// The text a user is shown.
    pub fn text(&self) -> (r: String)
        ensures
            r@ == self.spec_text(),
    {
        match self {
            DspError::Load(detail) => "model load failed: ".to_owned().concat(detail.as_str()),
            DspError::Inference(detail) => "inference failed: ".to_owned().concat(detail.as_str()),
            DspError::Other(detail) => detail.clone(),
        }
    }
}

} // verus!
