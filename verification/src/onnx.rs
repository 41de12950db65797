//! The contract of a streaming ONNX model: which of its inputs is which, and
//! what it hands back for every frame.
//!
//! A usable model takes a frame of audio, its own recurrent state and, if it
//! likes, an attenuation limit. It returns the enhanced audio and its new
//! state, in that order. Inputs are told apart by name, because exports
//! disagree about their order; outputs by position.
use vstd::prelude::*;
use vstd::string::StringExecFns;

use crate::capture::silence;
use crate::denoiser::clamp_attenuation;
use crate::error::DspError;
use crate::text::{contains, push_decimal, same_text, to_ascii_lowercase};
use crate::{Frame, FRAME_SAMPLES};

verus! {

/// One input of a model.
#[derive(Debug)]
pub struct ModelInput {
    pub name: String,
    /// The dimensions of a tensor; one that varies is not positive. `None` for
    /// an input that is no tensor.
    pub dims: Option<Vec<i64>>,
}

/// An input's name contains `needle`, whatever the case of ASCII letters.
pub open spec fn named_like(input: ModelInput, needle: Seq<char>) -> bool {
    crate::text::occurs_in(crate::text::ascii_lowercase(input.name@), needle)
}

/// The first input from `from` on whose name contains `needle`.
pub open spec fn first_named(inputs: Seq<ModelInput>, needle: Seq<char>, from: int) -> Option<int>
    decreases inputs.len() - from,
{
    if from >= inputs.len() {
        None
    } else if named_like(inputs[from], needle) {
        Some(from)
    } else {
        first_named(inputs, needle, from + 1)
    }
}

/// The position of the first input whose name contains `needle`.
fn position_named(inputs: &Vec<ModelInput>, needle: &str) -> (r: Option<usize>)
    ensures
        (match r {
            Some(i) => Some(i as int),
            None => None,
        }) == first_named(inputs@, needle@, 0),
        r matches Some(i) ==> i < inputs@.len(),
{
    for i in 0..inputs.len()
        invariant
            first_named(inputs@, needle@, 0) == first_named(inputs@, needle@, i as int),
    {
        let lower = to_ascii_lowercase(inputs[i].name.as_str());
        if contains(lower.as_str(), needle) {
            return Some(i);
        }
    }
    None
}

/// The input that serves a purpose: the first whose name contains `needle`,
/// else the one in the usual place.
pub open spec fn input_for(inputs: Seq<ModelInput>, needle: Seq<char>, fallback: int) -> Option<
    Seq<char>,
> {
    match first_named(inputs, needle, 0) {
        Some(i) => Some(inputs[i].name@),
        None => if 0 <= fallback < inputs.len() {
            Some(inputs[fallback].name@)
        } else {
            None
        },
    }
}

/// The name of the input whose own name contains `needle`, or of the one at
/// `fallback_index`.
pub fn find_input(inputs: &Vec<ModelInput>, needle: &str, fallback_index: usize) -> (r: Option<
    String,
>)
    ensures
        crate::paths::opt_view(r) == input_for(inputs@, needle@, fallback_index as int),
{
    match position_named(inputs, needle) {
        Some(i) => Some(inputs[i].name.clone()),
        None => {
            if fallback_index < inputs.len() {
                Some(inputs[fallback_index].name.clone())
            } else {
                None
            }
        },
    }
}

/// The product of the dimensions that do not vary.
pub open spec fn fixed_elements(dims: Seq<i64>) -> int
    decreases dims.len(),
{
    if dims.len() == 0 {
        1
    } else if dims.last() > 0 {
        fixed_elements(dims.drop_last()) * dims.last()
    } else {
        fixed_elements(dims.drop_last())
    }
}

proof fn lemma_fixed_elements(dims: Seq<i64>, i: int)
    requires
        0 <= i <= dims.len(),
    ensures
        1 <= fixed_elements(dims.take(i)) <= fixed_elements(dims),
    decreases dims.len() - i,
{
    if i == dims.len() {
        assert(dims.take(i) =~= dims);
        lemma_fixed_positive(dims);
    } else {
        lemma_fixed_elements(dims, i + 1);
        lemma_fixed_positive(dims.take(i));
        assert(dims.take(i + 1).drop_last() =~= dims.take(i));
        assert(dims[i] > 0 ==> fixed_elements(dims.take(i)) <= fixed_elements(dims.take(i))
            * dims[i]) by (nonlinear_arith)
            requires
                fixed_elements(dims.take(i)) >= 1,
        ;
    }
}

proof fn lemma_fixed_positive(dims: Seq<i64>)
    ensures
        fixed_elements(dims) >= 1,
    decreases dims.len(),
{
    if dims.len() > 0 {
        lemma_fixed_positive(dims.drop_last());
        let a = fixed_elements(dims.drop_last());
        let b = dims.last();
        assert(b > 0 ==> a * b >= 1) by (nonlinear_arith)
            requires
                a >= 1,
        ;
    }
}

/// The dimensions say nothing of a size: there are some, and all of them vary.
pub open spec fn all_vary(dims: Seq<i64>) -> bool {
    dims.len() > 0 && forall|k: int| 0 <= k < dims.len() ==> #[trigger] dims[k] <= 0
}

/// The number of elements in the input called `name`, by the dimensions it
/// declares; `None` where there is no such input, it is no tensor, or it
/// declares no size.
pub open spec fn elements_of(inputs: Seq<ModelInput>, name: Seq<char>, from: int) -> Option<int>
    decreases inputs.len() - from,
{
    if from >= inputs.len() {
        None
    } else if inputs[from].name@ == name {
        match inputs[from].dims {
            Some(dims) => if all_vary(dims@) {
                None
            } else {
                Some(fixed_elements(dims@))
            },
            None => None,
        }
    } else {
        elements_of(inputs, name, from + 1)
    }
}

/// The input called `name` does not declare more elements than memory has room
/// for.
pub open spec fn size_fits(inputs: Seq<ModelInput>, name: Seq<char>) -> bool {
    elements_of(inputs, name, 0) matches Some(n) ==> n <= isize::MAX
}

/// The state input does not declare more elements than memory has room for.
pub open spec fn state_fits(inputs: Seq<ModelInput>) -> bool {
    input_for(inputs, "state"@, 1) matches Some(name) ==> size_fits(inputs, name)
}

/// The product of the dimensions that do not vary, if memory has room for so
/// many elements.
fn count_elements(dims: &Vec<i64>) -> (r: Option<usize>)
    ensures
        r is Some <==> fixed_elements(dims@) <= isize::MAX,
        r matches Some(n) ==> n == fixed_elements(dims@),
{
    let most: usize = isize::MAX as usize;
    let mut total: usize = 1;
    for i in 0..dims.len()
        invariant
            most == isize::MAX,
            total <= most,
            total == fixed_elements(dims@.take(i as int)),
    {
        proof {
            lemma_fixed_elements(dims@, i + 1);
            assert(dims@.take(i + 1).drop_last() =~= dims@.take(i as int));
            lemma_fixed_positive(dims@.take(i as int));
        }
        let d: i64 = dims[i];
        if d > 0 {
            assert(0 < total * d <= 0x7fff_ffff_ffff_ffff * 0x7fff_ffff_ffff_ffff)
                by (nonlinear_arith)
                requires
                    1 <= total <= 0x7fff_ffff_ffff_ffff,
                    1 <= d <= 0x7fff_ffff_ffff_ffff,
            ;
            let product: u128 = total as u128 * d as u128;
            if product > most as u128 {
                return None;
            }
            total = product as usize;
        }
    }
    assert(dims@.take(dims@.len() as int) =~= dims@);
    Some(total)
}

fn only_varying(dims: &Vec<i64>) -> (r: bool)
    ensures
        r == all_vary(dims@),
{
    for i in 0..dims.len()
        invariant
            forall|k: int| 0 <= k < i ==> #[trigger] dims@[k] <= 0,
    {
        if dims[i] > 0 {
            assert(dims@[i as int] > 0);
            return false;
        }
    }
    dims.len() > 0
}

/// How many elements a fixed-size input expects, if the model declares it.
pub fn declared_len(inputs: &Vec<ModelInput>, name: &str) -> (r: Option<usize>)
    requires
        size_fits(inputs@, name@),
    ensures
        (match r {
            Some(n) => Some(n as int),
            None => None,
        }) == elements_of(inputs@, name@, 0),
{
    for i in 0..inputs.len()
        invariant
            size_fits(inputs@, name@),
            elements_of(inputs@, name@, 0) == elements_of(inputs@, name@, i as int),
    {
        if same_text(inputs[i].name.as_str(), name) {
            return match &inputs[i].dims {
                Some(dims) => if only_varying(dims) {
                    None
                } else {
                    count_elements(dims)
                },
                None => None,
            };
        }
    }
    None
}

/// Whether a model's state fits in memory. One that declares more cannot be
/// loaded.
pub fn state_size_fits(inputs: &Vec<ModelInput>) -> (r: bool)
    ensures
        r == state_fits(inputs@),
{
    let name = match find_input(inputs, "state", 1) {
        Some(name) => name,
        None => {
            return true;
        },
    };
    for i in 0..inputs.len()
        invariant
            input_for(inputs@, "state"@, 1) == Some(name@),
            elements_of(inputs@, name@, 0) == elements_of(inputs@, name@, i as int),
    {
        if same_text(inputs[i].name.as_str(), name.as_str()) {
            return match &inputs[i].dims {
                Some(dims) => only_varying(dims) || count_elements(dims).is_some(),
                None => true,
            };
        }
    }
    true
}

/// What a model without a state input is told.
pub open spec fn no_state_text() -> Seq<char> {
    "model has no state input; this loader handles streaming models that carry recurrent state (e.g. DeepFilterNet3 exports)"@
}

/// What a model with too few outputs is told.
pub open spec fn outputs_text(outputs: nat) -> Seq<char> {
    "model has "@ + crate::text::decimal(outputs)
        + " output(s); this loader needs two — the enhanced audio and the model's new state, in that order. A model without a state output is not a streaming model and cannot be run frame at a time"@
}

/// Why a model cannot be run, if it cannot.
pub open spec fn load_refusal(inputs: Seq<ModelInput>, outputs: nat) -> Option<Seq<char>> {
    match (input_for(inputs, "frame"@, 0), input_for(inputs, "state"@, 1)) {
        (None, _) => Some("model has no inputs"@),
        (_, None) => Some(no_state_text()),
        (Some(_), Some(states)) => if outputs < 2 {
            Some(outputs_text(outputs))
        } else if elements_of(inputs, states, 0) is None {
            Some("could not determine the size of state input '"@ + states + "'"@)
        } else {
            None
        },
    }
}

/// The state after a model has returned a new one: that one, unless it is of
/// another width and so is refused.
pub open spec fn next_states<S>(states: Seq<S>, returned: Seq<S>) -> Seq<S> {
    if returned.len() == states.len() {
        returned
    } else {
        states
    }
}

/// A streaming model, as far as it is not the runtime's business: which input
/// is which, the state it carries from frame to frame, and the limit it was
/// given.
#[derive(Debug)]
pub struct OnnxDenoiser<S> {
    frame_input: String,
    states_input: String,
    atten_input: Option<String>,
    states: Vec<S>,
    atten_lim_bits: u32,
    label: String,
}

impl<S: Copy> OnnxDenoiser<S> {
    pub closed spec fn spec_frame_input(&self) -> Seq<char> {
        self.frame_input@
    }

    pub closed spec fn spec_states_input(&self) -> Seq<char> {
        self.states_input@
    }

    pub closed spec fn spec_atten_input(&self) -> Option<Seq<char>> {
        crate::paths::opt_view(self.atten_input)
    }

    /// The recurrent state that the next frame is run with.
    pub closed spec fn spec_states(&self) -> Seq<S> {
        self.states@
    }

    /// The attenuation limit in decibels, by its bits.
    pub closed spec fn spec_atten(&self) -> u32 {
        self.atten_lim_bits
    }

    pub closed spec fn spec_label(&self) -> Seq<char> {
        self.label@
    }

    /// Everything but the state is as in `other`.
    pub open spec fn same_model(&self, other: &Self) -> bool {
        &&& self.spec_frame_input() == other.spec_frame_input()
        &&& self.spec_states_input() == other.spec_states_input()
        &&& self.spec_atten_input() == other.spec_atten_input()
        &&& self.spec_label() == other.spec_label()
        &&& self.spec_atten() == other.spec_atten()
    }

    /// Make a model's declared inputs and outputs into a denoiser, or say why
    /// it is not one. Its state is all `zero` at first, as wide as the model
    /// says. `file_name` is what the model is called.
    ///
    /// Everything that running a frame relies on is checked here, where there
    /// is a user to tell.
    pub fn load(
        file_name: Option<String>,
        inputs: &Vec<ModelInput>,
        outputs: usize,
        zero: S,
    ) -> (r: Result<Self, DspError>)
        requires
            state_fits(inputs@),
        ensures
            r is Ok <==> load_refusal(inputs@, outputs as nat) is None,
            r matches Err(e) ==> (e matches DspError::Load(why) && Some(why@) == load_refusal(
                inputs@,
                outputs as nat,
            )),
            r matches Ok(model) ==> {
                &&& Some(model.spec_frame_input()) == input_for(inputs@, "frame"@, 0)
                &&& Some(model.spec_states_input()) == input_for(inputs@, "state"@, 1)
                &&& model.spec_atten_input() == (match first_named(inputs@, "atten"@, 0) {
                    Some(i) => Some(inputs@[i].name@),
                    None => None,
                })
                &&& Some(model.spec_states().len() as int) == elements_of(
                    inputs@,
                    model.spec_states_input(),
                    0,
                )
                &&& forall|i: int|
                    0 <= i < model.spec_states().len() ==> #[trigger] model.spec_states()[i] == zero
                &&& model.spec_atten() == 0
                &&& model.spec_label() == (match file_name {
                    Some(name) => name@,
                    None => "onnx-model"@,
                })
            },
    {
        let frame_input = match find_input(inputs, "frame", 0) {
            Some(name) => name,
            None => {
                return Err(DspError::Load("model has no inputs".to_owned()));
            },
        };
        let states_input = match find_input(inputs, "state", 1) {
            Some(name) => name,
            None => {
                return Err(
                    DspError::Load(
                        "model has no state input; this loader handles streaming models that carry recurrent state (e.g. DeepFilterNet3 exports)".to_owned(),
                    ),
                );
            },
        };
        let atten_input = match position_named(inputs, "atten") {
            Some(i) => Some(inputs[i].name.clone()),
            None => None,
        };
        if outputs < 2 {
            let mut why = "model has ".to_owned();
            push_decimal(&mut why, outputs as u64);
            why.append(
                " output(s); this loader needs two — the enhanced audio and the model's new state, in that order. A model without a state output is not a streaming model and cannot be run frame at a time",
            );
            return Err(DspError::Load(why));
        }
        let state_len: usize = match declared_len(inputs, states_input.as_str()) {
            Some(n) => n,
            None => {
                let mut why = "could not determine the size of state input '".to_owned();
                why.append(states_input.as_str());
                why.append("'");
                return Err(DspError::Load(why));
            },
        };
        let label = match file_name {
            Some(name) => name,
            None => "onnx-model".to_owned(),
        };
        Ok(
            OnnxDenoiser {
                frame_input,
                states_input,
                atten_input,
                states: silence(zero, state_len),
                atten_lim_bits: 0,
                label,
            },
        )
    }

    /// Set the attenuation limit, in decibels by its bits. Zero means to
    /// suppress as much as the model likes; nothing below zero means anything.
    pub fn set_attenuation_db(&mut self, bits: u32)
        ensures
            final(self).spec_atten() == (if crate::denoiser::is_positive_bits(bits) {
                bits
            } else {
                0
            }),
            final(self).spec_states() == old(self).spec_states(),
            final(self).spec_frame_input() == old(self).spec_frame_input(),
            final(self).spec_states_input() == old(self).spec_states_input(),
            final(self).spec_atten_input() == old(self).spec_atten_input(),
            final(self).spec_label() == old(self).spec_label(),
    {
        self.atten_lim_bits = clamp_attenuation(bits);
    }

    /// The input that takes the audio.
    pub fn frame_input(&self) -> (r: &str)
        ensures
            r@ == self.spec_frame_input(),
    {
        self.frame_input.as_str()
    }

    /// The input that takes the state.
    pub fn states_input(&self) -> (r: &str)
        ensures
            r@ == self.spec_states_input(),
    {
        self.states_input.as_str()
    }

    /// The input that takes the attenuation limit, if the model has one.
    pub fn atten_input(&self) -> (r: Option<String>)
        ensures
            crate::paths::opt_view(r) == self.spec_atten_input(),
    {
        match &self.atten_input {
            Some(name) => Some(name.clone()),
            None => None,
        }
    }

    /// The state to run the next frame with.
    pub fn states(&self) -> (r: &Vec<S>)
        ensures
            r@ == self.spec_states(),
    {
        &self.states
    }

    /// The attenuation limit in decibels, by its bits.
    pub fn attenuation_bits(&self) -> (r: u32)
        ensures
            r == self.spec_atten(),
    {
        self.atten_lim_bits
    }

    /// What the model is called.
    pub fn label(&self) -> (r: &str)
        ensures
            r@ == self.spec_label(),
    {
        self.label.as_str()
    }

    /// Take in the model's first output for a frame, the enhanced audio.
    pub fn take_audio(&self, frame: &mut Frame<S>, enhanced: &[S]) -> (r: Result<(), DspError>)
        ensures
            r is Ok <==> enhanced@.len() == FRAME_SAMPLES,
            r is Ok ==> final(frame)@ == enhanced@,
            r matches Err(e) ==> {
                &&& *final(frame) == *old(frame)
                &&& e matches DspError::Inference(why) && why@ == "expected 480 output samples, got "@
                    + crate::text::decimal(enhanced@.len())
            },
    {
        let n: usize = enhanced.len();
        if n != FRAME_SAMPLES {
            let mut why = "expected 480 output samples, got ".to_owned();
            push_decimal(&mut why, n as u64);
            return Err(DspError::Inference(why));
        }
        for i in 0..FRAME_SAMPLES
            invariant
                enhanced@.len() == FRAME_SAMPLES,
                frame@.len() == FRAME_SAMPLES,
                forall|j: int| 0 <= j < i ==> frame@[j] == enhanced@[j],
        {
            frame[i] = enhanced[i];
        }
        assert(frame@ =~= enhanced@);
        Ok(())
    }

    /// Take in the model's second output for a frame, its new state. The next
    /// frame is run with it.
    pub fn take_states(&mut self, new_states: &[S]) -> (r: Result<(), DspError>)
        ensures
            final(self).same_model(old(self)),
            r is Ok <==> new_states@.len() == old(self).spec_states().len(),
            final(self).spec_states() == next_states(old(self).spec_states(), new_states@),
            r matches Err(e) ==> {
                &&& e matches DspError::Inference(why) && why@ == "model returned "@
                    + crate::text::decimal(new_states@.len()) + " state values, expected "@
                    + crate::text::decimal(old(self).spec_states().len())
            },
    {
        let n: usize = new_states.len();
        let expected: usize = self.states.len();
        if n != expected {
            let mut why = "model returned ".to_owned();
            push_decimal(&mut why, n as u64);
            why.append(" state values, expected ");
            push_decimal(&mut why, expected as u64);
            return Err(DspError::Inference(why));
        }
        let mut states: Vec<S> = Vec::with_capacity(n);
        for i in 0..n
            invariant
                n == new_states@.len(),
                states@ == new_states@.take(i as int),
        {
            states.push(new_states[i]);
            assert(states@ =~= new_states@.take(i + 1));
        }
        assert(new_states@.take(n as int) =~= new_states@);
        self.states = states;
        Ok(())
    }

    /// Take in both outputs of a run, the audio first and then the state. Where
    /// the audio is refused nothing changes. `new_states` is an error where the
    /// second output could not be read, which the audio does not wait for.
    pub fn take_outputs(
        &mut self,
        frame: &mut Frame<S>,
        enhanced: &[S],
        new_states: Result<&[S], DspError>,
    ) -> (r: Result<(), DspError>)
        ensures
            final(self).same_model(old(self)),
            enhanced@.len() != FRAME_SAMPLES ==> {
                &&& *final(frame) == *old(frame)
                &&& final(self).spec_states() == old(self).spec_states()
                &&& r matches Err(DspError::Inference(why)) && why@
                    == "expected 480 output samples, got "@ + crate::text::decimal(enhanced@.len())
            },
            enhanced@.len() == FRAME_SAMPLES ==> {
                &&& final(frame)@ == enhanced@
                &&& match new_states {
                    Err(e) => {
                        &&& r == Err::<(), DspError>(e)
                        &&& final(self).spec_states() == old(self).spec_states()
                    },
                    Ok(states) => {
                        &&& final(self).spec_states() == next_states(
                            old(self).spec_states(),
                            states@,
                        )
                        &&& r is Ok <==> states@.len() == old(self).spec_states().len()
                        &&& r matches Err(e) ==> e matches DspError::Inference(why) && why@
                            == "model returned "@ + crate::text::decimal(states@.len())
                            + " state values, expected "@ + crate::text::decimal(
                            old(self).spec_states().len(),
                        )
                    },
                }
            },
    {
        match self.take_audio(frame, enhanced) {
            Ok(()) => {},
            Err(e) => {
                return Err(e);
            },
        }
        match new_states {
            Ok(states) => self.take_states(states),
            Err(e) => Err(e),
        }
    }
}

/// A model was run on one frame after another: `models[k]` is the model before
/// the `k`-th, and `returned[k]` the state that running it returned, or `None`
/// where the run failed and there was nothing to take in.
pub open spec fn streams<S: Copy>(
    models: Seq<OnnxDenoiser<S>>,
    returned: Seq<Option<Seq<S>>>,
) -> bool {
    &&& models.len() == returned.len() + 1
    &&& forall|k: int|
        0 <= k < returned.len() ==> {
            &&& models[k + 1].same_model(&models[k])
            &&& models[k + 1].spec_states() == match #[trigger] returned[k] {
                Some(states) => next_states(models[k].spec_states(), states),
                None => models[k].spec_states(),
            }
        }
}

/// The last state returned that was `width` wide, if there is one.
pub open spec fn last_returned<S>(returned: Seq<Option<Seq<S>>>, width: nat) -> Option<Seq<S>>
    decreases returned.len(),
{
    if returned.len() == 0 {
        None
    } else {
        match returned.last() {
            Some(states) if states.len() == width => Some(states),
            _ => last_returned(returned.drop_last(), width),
        }
    }
}

/// The model's state is fed back: every frame is run with the state that the
/// model last returned, and with the one it was loaded with until it has
/// returned any. Nothing else about the model changes, and a run that fails or
/// returns a state of the wrong width changes nothing.
pub proof fn law_the_state_is_fed_back<S: Copy>(
    models: Seq<OnnxDenoiser<S>>,
    returned: Seq<Option<Seq<S>>>,
    k: int,
)
    requires
        streams(models, returned),
        0 <= k < models.len(),
    ensures
        models[k].same_model(&models[0]),
        models[k].spec_states().len() == models[0].spec_states().len(),
        models[k].spec_states() == (match last_returned(
            returned.take(k),
            models[0].spec_states().len(),
        ) {
            Some(states) => states,
            None => models[0].spec_states(),
        }),
    decreases k,
{
    if k > 0 {
        law_the_state_is_fed_back(models, returned, k - 1);
        assert(returned.take(k).drop_last() =~= returned.take(k - 1));
        assert(returned.take(k).last() == returned[k - 1]);
    }
}

proof fn lemma_first_named(inputs: Seq<ModelInput>, needle: Seq<char>, from: int, i: int)
    requires
        0 <= from <= i <= inputs.len(),
        forall|j: int| from <= j < i ==> !named_like(#[trigger] inputs[j], needle),
    ensures
        first_named(inputs, needle, from) == first_named(inputs, needle, i),
    decreases i - from,
{
    if from < i {
        assert(!named_like(inputs[from], needle));
        lemma_first_named(inputs, needle, from + 1, i);
    }
}

/// An input is found by its name before it is by its place: the first whose
/// name holds the word serves, wherever it stands, and the usual place counts
/// only where no name does.
pub proof fn law_names_come_before_places(
    inputs: Seq<ModelInput>,
    needle: Seq<char>,
    fallback: int,
    i: int,
)
    requires
        0 <= i <= inputs.len(),
        forall|j: int|
            0 <= j < i ==> !crate::text::occurs_in(
                crate::text::ascii_lowercase((#[trigger] inputs[j]).name@),
                needle,
            ),
    ensures
        i < inputs.len() && crate::text::occurs_in(
            crate::text::ascii_lowercase(inputs[i].name@),
            needle,
        ) ==> input_for(inputs, needle, fallback) == Some(inputs[i].name@),
        i == inputs.len() && 0 <= fallback < inputs.len() ==> input_for(inputs, needle, fallback)
            == Some(inputs[fallback].name@),
        i == inputs.len() && fallback >= inputs.len() ==> input_for(inputs, needle, fallback)
            is None,
{
    assert forall|j: int| 0 <= j < i implies !named_like(#[trigger] inputs[j], needle) by {}
    lemma_first_named(inputs, needle, 0, i);
}

/// Dimensions multiply: the elements of two lots of dimensions together are
/// those of the one for each of the other. A single one counts as it is, or not
/// at all where it varies.
pub proof fn law_dimensions_multiply(a: Seq<i64>, b: Seq<i64>, one: i64)
    ensures
        fixed_elements(a + b) == fixed_elements(a) * fixed_elements(b),
        fixed_elements(seq![one]) == (if one > 0 {
            one as int
        } else {
            1
        }),
        fixed_elements(Seq::empty()) == 1,
    decreases b.len(),
{
    let single = seq![one];
    assert(single.drop_last() =~= Seq::<i64>::empty());
    assert(fixed_elements(single.drop_last()) == 1);
    assert(single.last() == one);
    assert(1 * one == one);
    if b.len() == 0 {
        assert(a + b =~= a);
    } else {
        let rest = b.drop_last();
        assert((a + b).drop_last() =~= a + rest);
        law_dimensions_multiply(a, rest, one);
        let (x, y, d) = (fixed_elements(a), fixed_elements(rest), b.last() as int);
        assert((x * y) * d == x * (y * d)) by (nonlinear_arith);
    }
}

proof fn lemma_elements_of(inputs: Seq<ModelInput>, name: Seq<char>, from: int, i: int)
    requires
        0 <= from <= i <= inputs.len(),
        forall|j: int| from <= j < i ==> (#[trigger] inputs[j]).name@ != name,
    ensures
        elements_of(inputs, name, from) == elements_of(inputs, name, i),
    decreases i - from,
{
    if from < i {
        assert(inputs[from].name@ != name);
        lemma_elements_of(inputs, name, from + 1, i);
    }
}

/// An input declares a size where it is a tensor and some dimension of it is
/// fixed, or where it has no dimension at all; the first input of the name
/// counts.
pub proof fn law_a_size_takes_a_fixed_dimension(
    inputs: Seq<ModelInput>,
    name: Seq<char>,
    i: int,
)
    requires
        0 <= i < inputs.len(),
        inputs[i].name@ == name,
        forall|j: int| 0 <= j < i ==> (#[trigger] inputs[j]).name@ != name,
    ensures
        inputs[i].dims is None ==> elements_of(inputs, name, 0) is None,
        inputs[i].dims matches Some(dims) ==> {
            &&& elements_of(inputs, name, 0) is Some <==> dims@.len() == 0 || exists|k: int|
                0 <= k < dims@.len() && #[trigger] dims@[k] > 0
            &&& elements_of(inputs, name, 0) matches Some(n) ==> n == fixed_elements(dims@)
        },
{
    lemma_elements_of(inputs, name, 0, i);
    if let Some(dims) = inputs[i].dims {
        if exists|k: int| 0 <= k < dims@.len() && #[trigger] dims@[k] > 0 {
            assert(!all_vary(dims@));
        }
    }
}

} // verus!
