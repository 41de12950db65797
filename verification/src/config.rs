//! The user's settings, and what follows from them.
use vstd::prelude::*;

use crate::denoiser::ATTENUATION_MAX_BITS;
use crate::devices::same_device_name;
use crate::paths::{join, PathStyle};
use crate::text::{is_empty, same_text};

verus! {

/// How many microphones are remembered.
pub const MAX_REMEMBERED: usize = 5;

/// What the configuration file holds.
#[derive(Debug)]
pub struct Config {
    /// A single microphone by name, as older files have it. Empty for none.
    pub input_device: String,
    /// Microphones in order of preference, by the name Windows shows, best
    /// first. When none of them is there, Windows' own default is used.
    pub microphones: Vec<String>,
    /// Where cleaned audio goes, by name. Empty to look for a virtual cable.
    pub output_device: String,
    /// Whether noise is removed. When not, audio passes through untouched.
    pub enabled: bool,
    /// The attenuation limit in decibels, by the bits of the 32-bit float.
    pub attenuation_bits: u32,
    /// Start when the user logs in.
    pub auto_start: bool,
    /// The model to use. Empty for one beside the executable.
    pub model_path: String,
    /// Run the model instead of the built-in noise removal.
    pub use_onnx: bool,
}

/// What a switch that the file does not mention is set to.
pub fn default_true() -> (r: bool)
    ensures
        r,
{
    true
}

/// The attenuation limit where the file does not mention one: a hundred
/// decibels, which is no limit.
pub fn default_atten() -> (r: u32)
    ensures
        r == ATTENUATION_MAX_BITS,
{
    ATTENUATION_MAX_BITS
}

impl Default for Config {
    /// The settings where there is no file.
    fn default() -> (r: Self)
        ensures
            r.input_device@ == Seq::<char>::empty(),
            r.microphones@.len() == 0,
            r.output_device@ == Seq::<char>::empty(),
            r.enabled,
            r.attenuation_bits == ATTENUATION_MAX_BITS,
            !r.auto_start,
            r.model_path@ == Seq::<char>::empty(),
            r.use_onnx,
    {
        Config {
            input_device: String::new(),
            microphones: Vec::new(),
            output_device: String::new(),
            enabled: default_true(),
            attenuation_bits: default_atten(),
            auto_start: false,
            model_path: String::new(),
            use_onnx: default_true(),
        }
    }
}

/// The list without `name`.
pub open spec fn without(list: Seq<Seq<char>>, name: Seq<char>) -> Seq<Seq<char>>
    decreases list.len(),
{
    if list.len() == 0 {
        Seq::empty()
    } else if list.last() == name {
        without(list.drop_last(), name)
    } else {
        without(list.drop_last(), name).push(list.last())
    }
}

/// The list with `name` moved to the front, cut to the number remembered.
pub open spec fn preferring(list: Seq<Seq<char>>, name: Seq<char>) -> Seq<Seq<char>> {
    let all = seq![name] + without(list, name);
    if all.len() <= MAX_REMEMBERED {
        all
    } else {
        all.take(MAX_REMEMBERED as int)
    }
}

/// One of the names stands for the device called `name`.
pub open spec fn is_there(available: Seq<Seq<char>>, name: Seq<char>) -> bool {
    exists|i: int|
        0 <= i < available.len() && crate::devices::stable_name(#[trigger] available[i])
            == crate::devices::stable_name(name)
}

/// The first of the remembered microphones from `from` on that is there, or
/// nothing for Windows' default.
pub open spec fn first_present(
    list: Seq<Seq<char>>,
    available: Seq<Seq<char>>,
    from: int,
) -> Seq<char>
    decreases list.len() - from,
{
    if from >= list.len() {
        Seq::empty()
    } else if is_there(available, list[from]) {
        list[from]
    } else {
        first_present(list, available, from + 1)
    }
}

/// Whether a device is among those named.
fn is_listed(available: &Vec<String>, name: &str) -> (r: bool)
    ensures
        r == is_there(crate::text::views(available@), name@),
{
    let ghost names = crate::text::views(available@);
    for i in 0..available.len()
        invariant
            names == crate::text::views(available@),
            forall|j: int|
                0 <= j < i ==> crate::devices::stable_name(#[trigger] names[j])
                    != crate::devices::stable_name(name@),
    {
        assert(names[i as int] == available@[i as int]@);
        if same_device_name(available[i].as_str(), name) {
            return true;
        }
    }
    false
}

impl Config {
    /// What the remembered microphones are called.
    pub open spec fn remembered(&self) -> Seq<Seq<char>> {
        crate::text::views(self.microphones@)
    }

    /// Every setting but the microphones is as in `other`.
    pub open spec fn same_otherwise(&self, other: &Config) -> bool {
        &&& self.output_device == other.output_device
        &&& self.enabled == other.enabled
        &&& self.attenuation_bits == other.attenuation_bits
        &&& self.auto_start == other.auto_start
        &&& self.model_path == other.model_path
        &&& self.use_onnx == other.use_onnx
    }

    /// Make the single microphone of an older file the first and only
    /// preference, where there are no preferences yet.
    pub fn fold_legacy(&mut self)
        ensures
            final(self).same_otherwise(old(self)),
            old(self).microphones@.len() == 0 && old(self).input_device@.len() > 0 ==> {
                &&& final(self).remembered() == seq![old(self).input_device@]
                &&& final(self).input_device@ == Seq::<char>::empty()
            },
            !(old(self).microphones@.len() == 0 && old(self).input_device@.len() > 0)
                ==> *final(self) == *old(self),
    {
        if self.microphones.len() == 0 && !is_empty(self.input_device.as_str()) {
            let name = self.input_device.clone();
            self.input_device = String::new();
            self.microphones.push(name);
            assert(self.remembered() =~= seq![old(self).input_device@]);
        }
    }

    /// Move `name` to the front of the preferences. The rest keep their order,
    /// and only the first few are remembered.
    pub fn prefer_microphone(&mut self, name: &str)
        ensures
            final(self).same_otherwise(old(self)),
            final(self).input_device == old(self).input_device,
            final(self).remembered() == preferring(old(self).remembered(), name@),
    {
        let mut list: Vec<String> = Vec::new();
        list.push(name.to_owned());
        assert(crate::text::views(list@) =~= seq![name@] + without(
            old(self).remembered().take(0),
            name@,
        ));
        for i in 0..self.microphones.len()
            invariant
                *self == *old(self),
                crate::text::views(list@) == seq![name@] + without(
                    self.remembered().take(i as int),
                    name@,
                ),
        {
            let ghost before = crate::text::views(list@);
            let ghost done = self.remembered().take(i as int);
            assert(self.remembered().take(i + 1).drop_last() =~= done);
            assert(self.remembered().take(i + 1).last() == self.microphones@[i as int]@);
            if !same_text(self.microphones[i].as_str(), name) {
                list.push(self.microphones[i].clone());
                assert(crate::text::views(list@) =~= before.push(self.microphones@[i as int]@));
                assert(crate::text::views(list@) =~= seq![name@] + without(
                    self.remembered().take(i + 1),
                    name@,
                ));
            }
        }
        assert(self.remembered().take(self.remembered().len() as int) =~= self.remembered());
        let ghost all = crate::text::views(list@);
        if list.len() > MAX_REMEMBERED {
            list.truncate(MAX_REMEMBERED);
            assert(crate::text::views(list@) =~= all.take(MAX_REMEMBERED as int));
        }
        self.microphones = list;
    }

    /// Choose a microphone from the menu: prefer the one named, or, for an
    /// empty name, go back to following Windows' default.
    pub fn choose_microphone(&mut self, name: &str)
        ensures
            final(self).same_otherwise(old(self)),
            final(self).input_device@ == Seq::<char>::empty(),
            final(self).remembered() == (if name@.len() == 0 {
                Seq::empty()
            } else {
                preferring(old(self).remembered(), name@)
            }),
    {
        self.input_device = String::new();
        if is_empty(name) {
            self.microphones = Vec::new();
            assert(self.remembered() =~= Seq::empty());
        } else {
            self.prefer_microphone(name);
        }
    }

    /// The microphone that is used, given the names of those that are there.
    pub open spec fn wanted(&self, available: Seq<Seq<char>>) -> Seq<char> {
        if self.microphones@.len() > 0 {
            first_present(self.remembered(), available, 0)
        } else {
            self.input_device@
        }
    }

    /// The microphone to use, given the names of those that are there: the
    /// best of the preferred ones that is there, or nothing, for Windows'
    /// default. The single one of an older file counts only where nothing is
    /// preferred.
    pub fn wanted_microphone(&self, available: &Vec<String>) -> (r: String)
        ensures
            r@ == self.wanted(crate::text::views(available@)),
    {
        if self.microphones.len() == 0 {
            return self.input_device.clone();
        }
        for i in 0..self.microphones.len()
            invariant
                self.microphones@.len() > 0,
                first_present(self.remembered(), crate::text::views(available@), 0)
                    == first_present(
                    self.remembered(),
                    crate::text::views(available@),
                    i as int,
                ),
        {
            assert(self.remembered()[i as int] == self.microphones@[i as int]@);
            if is_listed(available, self.microphones[i].as_str()) {
                return self.microphones[i].clone();
            }
        }
        String::new()
    }

    /// Where a model would be: the one the settings name, else `model.onnx`
    /// beside the executable. `exe_dir` is `None` where that is not known.
    pub open spec fn candidate(
        &self,
        style: crate::paths::PathStyle,
        exe_dir: Option<Seq<u8>>,
    ) -> Option<Seq<u8>> {
        if self.model_path@.len() > 0 {
            Some(crate::paths::utf8(self.model_path@))
        } else {
            match exe_dir {
                Some(dir) => Some(
                    crate::paths::joined_path(style, dir, crate::paths::utf8("model.onnx"@)),
                ),
                None => None,
            }
        }
    }

    /// Where to look for a model.
    pub fn model_candidate(&self, style: PathStyle, exe_dir: &Option<Vec<u8>>) -> (r: Option<
        Vec<u8>,
    >)
        ensures
            crate::paths::opt_path(r) == self.candidate(style, crate::paths::opt_path(*exe_dir)),
    {
        if !is_empty(self.model_path.as_str()) {
            return Some(self.model_path.as_str().as_bytes_vec());
        }
        match exe_dir {
            Some(dir) => Some(join(style, dir, "model.onnx")),
            None => None,
        }
    }

    /// The model to offer: the candidate, if it `exists`.
    pub fn available_model(
        &self,
        style: PathStyle,
        exe_dir: &Option<Vec<u8>>,
        exists: bool,
    ) -> (r: Option<Vec<u8>>)
        ensures
            crate::paths::opt_path(r) == (if exists {
                self.candidate(style, crate::paths::opt_path(*exe_dir))
            } else {
                None
            }),
    {
        if exists {
            self.model_candidate(style, exe_dir)
        } else {
            None
        }
    }

    /// The model to load: the one to offer, if models are switched on.
    pub fn active_model(
        &self,
        style: PathStyle,
        exe_dir: &Option<Vec<u8>>,
        exists: bool,
    ) -> (r: Option<Vec<u8>>)
        ensures
            crate::paths::opt_path(r) == (if self.use_onnx && exists {
                self.candidate(style, crate::paths::opt_path(*exe_dir))
            } else {
                None
            }),
    {
        if self.use_onnx {
            self.available_model(style, exe_dir, exists)
        } else {
            None
        }
    }

    /// Choose a denoiser from the menu. A model's path, as text, is remembered,
    /// so that coming back to it later needs no configuring.
    pub fn choose_denoiser(&mut self, onnx: bool, available: &Option<String>)
        ensures
            final(self).use_onnx == onnx,
            final(self).model_path@ == (match available {
                Some(path) => if onnx {
                    path@
                } else {
                    old(self).model_path@
                },
                None => old(self).model_path@,
            }),
            final(self).input_device == old(self).input_device,
            final(self).microphones == old(self).microphones,
            final(self).output_device == old(self).output_device,
            final(self).enabled == old(self).enabled,
            final(self).attenuation_bits == old(self).attenuation_bits,
            final(self).auto_start == old(self).auto_start,
    {
        if onnx {
            if let Some(path) = available {
                self.model_path = path.clone();
            }
        }
        self.use_onnx = onnx;
    }
}

/// No name stands in the list twice.
pub open spec fn distinct(list: Seq<Seq<char>>) -> bool {
    forall|i: int, j: int| 0 <= i < j < list.len() ==> #[trigger] list[i] != #[trigger] list[j]
}

proof fn lemma_without(list: Seq<Seq<char>>, name: Seq<char>)
    ensures
        !without(list, name).contains(name),
        forall|m: Seq<char>| #[trigger]
            without(list, name).contains(m) <==> list.contains(m) && m != name,
        distinct(list) ==> distinct(without(list, name)),
        without(list, name).len() <= list.len(),
        !list.contains(name) ==> without(list, name) == list,
    decreases list.len(),
{
    if list.len() == 0 {
        assert(without(list, name) =~= list);
    } else {
        let init = list.drop_last();
        let kept = without(init, name);
        let out = without(list, name);
        lemma_without(init, name);
        assert(list =~= init.push(list.last()));
        assert(list.contains(list.last())) by {
            assert(list[list.len() - 1] == list.last());
        }
        assert forall|m: Seq<char>| #[trigger] out.contains(m) <==> list.contains(m) && m
            != name by {
            assert(init.contains(m) ==> list.contains(m)) by {
                if init.contains(m) {
                    let k = choose|k: int| 0 <= k < init.len() && init[k] == m;
                    assert(list[k] == m);
                }
            }
            assert(list.contains(m) ==> init.contains(m) || m == list.last()) by {
                if list.contains(m) {
                    let k = choose|k: int| 0 <= k < list.len() && list[k] == m;
                    if k < init.len() {
                        assert(init[k] == m);
                    }
                }
            }
            if list.last() != name {
                assert(out =~= kept.push(list.last()));
                assert(kept.contains(m) ==> out.contains(m)) by {
                    if kept.contains(m) {
                        let k = choose|k: int| 0 <= k < kept.len() && kept[k] == m;
                        assert(out[k] == m);
                    }
                }
                assert(out.contains(list.last())) by {
                    assert(out[out.len() - 1] == list.last());
                }
                assert(out.contains(m) ==> kept.contains(m) || m == list.last()) by {
                    if out.contains(m) {
                        let k = choose|k: int| 0 <= k < out.len() && out[k] == m;
                        if k < kept.len() {
                            assert(kept[k] == m);
                        }
                    }
                }
            }
        }
        if distinct(list) {
            assert(distinct(init)) by {
                assert forall|i: int, j: int| 0 <= i < j < init.len() implies #[trigger] init[i]
                    != #[trigger] init[j] by {
                    assert(list[i] != list[j]);
                }
            }
            if list.last() != name {
                assert forall|i: int, j: int| 0 <= i < j < out.len() implies #[trigger] out[i]
                    != #[trigger] out[j] by {
                    if j < kept.len() {
                        assert(kept[i] != kept[j]);
                    } else {
                        assert(kept.contains(kept[i]));
                        assert(init.contains(kept[i]));
                        let k = choose|k: int| 0 <= k < init.len() && init[k] == kept[i];
                        assert(list[k] != list[list.len() - 1]);
                    }
                }
            }
        }
        if !list.contains(name) {
            assert(!init.contains(name)) by {
                if init.contains(name) {
                    let k = choose|k: int| 0 <= k < init.len() && init[k] == name;
                    assert(list[k] == name);
                }
            }
            assert(out =~= list);
        }
    }
}

/// Preferring a microphone puts it first, never lists it twice, keeps the list
/// short, and adds nothing else.
pub proof fn law_preferring_promotes_without_duplicates(list: Seq<Seq<char>>, name: Seq<char>)
    ensures
        preferring(list, name).len() > 0,
        preferring(list, name)[0] == name,
        preferring(list, name).len() <= MAX_REMEMBERED,
        distinct(list) ==> distinct(preferring(list, name)),
        forall|m: Seq<char>| #[trigger]
            preferring(list, name).contains(m) ==> m == name || list.contains(m),
{
    lemma_without(list, name);
    let kept = without(list, name);
    let all = seq![name] + kept;
    let out = preferring(list, name);
    assert(forall|i: int| 0 <= i < out.len() ==> #[trigger] out[i] == all[i]);
    if distinct(list) {
        assert forall|i: int, j: int| 0 <= i < j < out.len() implies #[trigger] out[i]
            != #[trigger] out[j] by {
            assert(all[j] == kept[j - 1]);
            assert(kept.contains(kept[j - 1]));
            if i > 0 {
                assert(all[i] == kept[i - 1]);
                assert(kept[i - 1] != kept[j - 1]);
            }
        }
    }
    assert forall|m: Seq<char>| #[trigger] out.contains(m) implies m == name || list.contains(
        m,
    ) by {
        let k = choose|k: int| 0 <= k < out.len() && out[k] == m;
        if k > 0 {
            assert(all[k] == kept[k - 1]);
            assert(kept.contains(kept[k - 1]));
        }
    }
}

/// Preferring the same microphone again changes nothing.
pub proof fn law_preferring_again_changes_nothing(list: Seq<Seq<char>>, name: Seq<char>)
    ensures
        preferring(preferring(list, name), name) == preferring(list, name),
{
    lemma_without(list, name);
    let kept = without(list, name);
    let out = preferring(list, name);
    let tail = out.drop_first();
    assert(out =~= seq![name] + tail);
    assert(!tail.contains(name)) by {
        if tail.contains(name) {
            let k = choose|k: int| 0 <= k < tail.len() && tail[k] == name;
            assert(tail[k] == out[k + 1]);
            assert((seq![name] + kept)[k + 1] == kept[k]);
            assert(kept.contains(kept[k]));
        }
    }
    lemma_without_front(name, tail);
    lemma_without(tail, name);
    assert(without(out, name) == tail);
    assert(preferring(out, name) =~= out);
}

proof fn lemma_without_front(name: Seq<char>, tail: Seq<Seq<char>>)
    ensures
        without(seq![name] + tail, name) == without(tail, name),
    decreases tail.len(),
{
    let list = seq![name] + tail;
    if tail.len() == 0 {
        assert(list.drop_last() =~= tail);
        assert(list.last() == name);
        assert(without(list, name) =~= without(tail, name));
    } else {
        assert(list.drop_last() =~= seq![name] + tail.drop_last());
        assert(list.last() == tail.last());
        lemma_without_front(name, tail.drop_last());
    }
}

/// A microphone that was just preferred is the one that is used, as long as it
/// is there.
pub proof fn law_a_preferred_microphone_is_used(
    before: Config,
    after: Config,
    name: Seq<char>,
    available: Seq<Seq<char>>,
)
    requires
        after.remembered() == preferring(before.remembered(), name),
        is_there(available, name),
    ensures
        after.wanted(available) == name,
{
    law_preferring_promotes_without_duplicates(before.remembered(), name);
    assert(after.remembered().len() == after.microphones@.len());
}

/// The remembered microphones can never strand the user: what is used is there,
/// or it is Windows' default.
pub proof fn law_the_list_never_strands_the_user(
    list: Seq<Seq<char>>,
    available: Seq<Seq<char>>,
    from: int,
)
    requires
        0 <= from,
    ensures
        first_present(list, available, from).len() == 0 || is_there(
            available,
            first_present(list, available, from),
        ),
    decreases list.len() - from,
{
    if from < list.len() && !is_there(available, list[from]) {
        law_the_list_never_strands_the_user(list, available, from + 1);
    }
}

proof fn lemma_without_is_a_filter(list: Seq<Seq<char>>, name: Seq<char>)
    ensures
        without(list, name) == list.filter(|m: Seq<char>| m != name),
    decreases list.len(),
{
    reveal(Seq::filter);
    if list.len() > 0 {
        lemma_without_is_a_filter(list.drop_last(), name);
    } else {
        assert(without(list, name) =~= list);
    }
}

/// Preferring a microphone leaves the others in the order they were in, and
/// forgets only what comes behind the fifth.
pub proof fn law_preferring_keeps_the_rest_in_order(list: Seq<Seq<char>>, name: Seq<char>)
    ensures
        ({
            let all = seq![name] + list.filter(|m: Seq<char>| m != name);
            preferring(list, name) == all.take(
                if all.len() < 5 {
                    all.len() as int
                } else {
                    5
                },
            )
        }),
{
    lemma_without_is_a_filter(list, name);
    let all = seq![name] + without(list, name);
    assert(all.take(all.len() as int) =~= all);
}

proof fn lemma_first_present_from(
    list: Seq<Seq<char>>,
    available: Seq<Seq<char>>,
    from: int,
    i: int,
)
    requires
        0 <= from <= i <= list.len(),
        forall|j: int| from <= j < i ==> !is_there(available, #[trigger] list[j]),
    ensures
        first_present(list, available, from) == first_present(list, available, i),
    decreases i - from,
{
    if from < i {
        assert(!is_there(available, list[from]));
        lemma_first_present_from(list, available, from + 1, i);
    }
}

/// Of the remembered microphones the earliest that is plugged in is used,
/// whatever instance number it carries now. Without one, nothing is asked for,
/// which stands for the default.
pub proof fn law_the_earliest_that_is_there_is_used(
    cfg: Config,
    available: Seq<Seq<char>>,
    i: int,
    k: int,
)
    requires
        cfg.remembered().len() > 0,
        0 <= i <= cfg.remembered().len(),
        forall|j: int|
            0 <= j < i ==> forall|n: int|
                0 <= n < available.len() ==> crate::devices::stable_name(#[trigger] available[n])
                    != crate::devices::stable_name(#[trigger] cfg.remembered()[j]),
    ensures
        i == cfg.remembered().len() ==> cfg.wanted(available).len() == 0,
        i < cfg.remembered().len() && 0 <= k < available.len() && crate::devices::stable_name(
            available[k],
        ) == crate::devices::stable_name(cfg.remembered()[i]) ==> cfg.wanted(available)
            == cfg.remembered()[i],
{
    let list = cfg.remembered();
    assert(cfg.microphones@.len() == list.len());
    assert forall|j: int| 0 <= j < i implies !is_there(available, #[trigger] list[j]) by {}
    lemma_first_present_from(list, available, 0, i);
}

} // verus!
