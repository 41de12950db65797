//! Audio endpoints: what is known of one, how they are listed, and which one a
//! user means.
use vstd::prelude::*;
use vstd::string::StringExecFns;

use crate::text::{
    contains, is_empty, join, push_decimal, same_text, starts_with, to_ascii_lowercase,
};

verus! {

/// Whether an endpoint records or plays.
#[derive(Debug, Clone, Copy, PartialEq, Eq, Structural)]
pub enum DeviceDirection {
    Capture,
    Render,
}

/// One audio endpoint.
#[derive(Debug)]
pub struct Device {
    /// The system's own identifier. It does not survive replugging.
    pub id: String,
    /// The name that Windows shows.
    pub friendly_name: String,
    /// The default for communication.
    pub is_default: bool,
    pub direction: DeviceDirection,
}

impl Device {
    /// The same endpoint again.
    pub fn copy(&self) -> (r: Device)
        ensures
            r == *self,
    {
        Device {
            id: self.id.clone(),
            friendly_name: self.friendly_name.clone(),
            is_default: self.is_default,
            direction: self.direction,
        }
    }
}

/// How many digits stand in a row from `i` on.
pub open spec fn digits_from(s: Seq<char>, i: int) -> nat
    decreases s.len() - i,
{
    if 0 <= i < s.len() && '0' <= s[i] <= '9' {
        1 + digits_from(s, i + 1)
    } else {
        0
    }
}

/// The place behind the first opening bracket from `i` on, or the start of the
/// name where there is none.
pub open spec fn label_start(s: Seq<char>, i: int) -> int
    decreases s.len() - i,
{
    if i >= s.len() {
        0
    } else if s[i] == '(' {
        i + 1
    } else {
        label_start(s, i + 1)
    }
}

/// A device's name without the instance number that Windows may put in front
/// of the product, as in `Microphone (4- fifine Microphone)`. It changes when
/// the device is plugged in elsewhere.
pub open spec fn stable_name(s: Seq<char>) -> Seq<char> {
    let start = label_start(s, 0);
    let end = start + digits_from(s, start);
    if end > start && end + 1 < s.len() && s[end] == '-' && s[end + 1] == ' ' {
        s.take(start) + s.skip(end + 2)
    } else {
        s
    }
}

proof fn lemma_label_start(s: Seq<char>, i: int)
    requires
        0 <= i <= s.len(),
    ensures
        0 <= label_start(s, i) <= s.len(),
    decreases s.len() - i,
{
    if i < s.len() && s[i] != '(' {
        lemma_label_start(s, i + 1);
    }
}

/// A name without its instance number.
fn stable_text(name: &str) -> (r: String)
    ensures
        r@ == stable_name(name@),
{
    let chars = crate::text::chars_of(name);
    let n: usize = chars.len();
    let mut start: usize = 0;
    let mut i: usize = 0;
    while i < n && start == 0
        invariant
            n == chars@.len(),
            i <= n,
            start <= n,
            start == 0 ==> label_start(chars@, 0) == label_start(chars@, i as int),
            start > 0 ==> label_start(chars@, 0) == start,
        decreases n - i,
    {
        if chars[i] == '(' {
            start = i + 1;
        }
        i = i + 1;
    }
    proof {
        lemma_label_start(chars@, 0);
    }
    let mut end: usize = start;
    while end < n && '0' <= chars[end] && chars[end] <= '9'
        invariant
            n == chars@.len(),
            start <= end <= n,
            digits_from(chars@, start as int) == end - start + digits_from(chars@, end as int),
        decreases n - end,
    {
        end = end + 1;
    }
    if end == start || n - end < 2 || chars[end] != '-' || chars[end + 1] != ' ' {
        return name.to_owned();
    }
    let mut kept: Vec<char> = Vec::new();
    for k in 0..start
        invariant
            start <= n,
            n == chars@.len(),
            kept@ == chars@.take(k as int),
    {
        kept.push(chars[k]);
        assert(kept@ =~= chars@.take(k + 1));
    }
    let ghost head = kept@;
    assert(kept@ =~= head + chars@.subrange(end + 2, end + 2));
    for k in (end + 2)..n
        invariant
            end + 2 <= n,
            n == chars@.len(),
            kept@ == head + chars@.subrange(end + 2, k as int),
    {
        kept.push(chars[k]);
        assert(kept@ =~= head + chars@.subrange(end + 2, k + 1));
    }
    assert(kept@ =~= stable_name(name@));
    crate::text::string_of(&kept)
}

/// Whether two names stand for the same device, whatever instance number each
/// carries.
pub fn same_device_name(a: &str, b: &str) -> (r: bool)
    ensures
        r == (stable_name(a@) == stable_name(b@)),
{
    let x = stable_text(a);
    let y = stable_text(b);
    same_text(x.as_str(), y.as_str())
}

proof fn lemma_digits(s: Seq<char>, i: int, n: nat)
    requires
        0 <= i,
        i + n < s.len(),
        forall|k: int| i <= k < i + n ==> '0' <= #[trigger] s[k] <= '9',
        !('0' <= s[i + n] <= '9'),
    ensures
        digits_from(s, i) == n,
    decreases n,
{
    if n > 0 {
        assert('0' <= s[i] <= '9');
        lemma_digits(s, i + 1, (n - 1) as nat);
    }
}

proof fn lemma_first_bracket(s: Seq<char>, i: int, at: int)
    requires
        0 <= i <= at < s.len(),
        s[at] == '(',
        forall|k: int| i <= k < at ==> #[trigger] s[k] != '(',
    ensures
        label_start(s, i) == at + 1,
    decreases at - i,
{
    if i < at {
        assert(s[i] != '(');
        lemma_first_bracket(s, i + 1, at);
    }
}

proof fn lemma_stable_name(kind: Seq<char>, number: Seq<char>, product: Seq<char>)
    requires
        !kind.contains('('),
        number.len() > 0,
        forall|k: int| 0 <= k < number.len() ==> '0' <= #[trigger] number[k] <= '9',
    ensures
        stable_name(kind.push('(') + number + seq!['-', ' '] + product) == kind.push('(') + product,
{
    let s = kind.push('(') + number + seq!['-', ' '] + product;
    let at = kind.len() as int;
    let start = at + 1;
    let end = start + number.len();
    assert forall|k: int| 0 <= k < at implies #[trigger] s[k] != '(' by {
        assert(s[k] == kind[k]);
        assert(kind.contains(kind[k]));
    }
    assert(s[at] == '(');
    lemma_first_bracket(s, 0, at);
    assert forall|k: int| start <= k < end implies '0' <= #[trigger] s[k] <= '9' by {
        assert(s[k] == number[k - start]);
    }
    assert(s[end] == '-');
    assert(s[end + 1] == ' ');
    lemma_digits(s, start, number.len());
    assert(s.take(start) + s.skip(end + 2) =~= kind.push('(') + product);
}

/// Plugging a device in elsewhere keeps it the same device: two names that
/// differ only in the instance number in front of the product stand for one.
pub proof fn law_replugging_keeps_the_device(
    kind: Seq<char>,
    one: Seq<char>,
    other: Seq<char>,
    product: Seq<char>,
)
    requires
        !kind.contains('('),
        one.len() > 0,
        other.len() > 0,
        forall|k: int| 0 <= k < one.len() ==> '0' <= #[trigger] one[k] <= '9',
        forall|k: int| 0 <= k < other.len() ==> '0' <= #[trigger] other[k] <= '9',
    ensures
        stable_name(kind.push('(') + one + seq!['-', ' '] + product) == stable_name(
            kind.push('(') + other + seq!['-', ' '] + product,
        ),
{
    lemma_stable_name(kind, one, product);
    lemma_stable_name(kind, other, product);
}

/// Put together what the system reports of an endpoint. One whose name cannot
/// be read goes by its identifier.
pub fn device_entry(
    id: String,
    friendly_name: Option<String>,
    default_id: &str,
    direction: DeviceDirection,
) -> (r: Device)
    ensures
        r.id@ == id@,
        r.friendly_name@ == (match friendly_name {
            Some(name) => name@,
            None => id@,
        }),
        r.is_default == (id@ == default_id@),
        r.direction == direction,
{
    let is_default = same_text(id.as_str(), default_id);
    let friendly_name = match friendly_name {
        Some(name) => name,
        None => id.clone(),
    };
    Device { id, friendly_name, is_default, direction }
}

/// What the name of a virtual cable's end begins with, in small letters. Audio
/// goes in at its input, which is a render device, and comes out at its output,
/// a capture device. A name that merely mentions a cable is none.
pub open spec fn cable_prefix(direction: DeviceDirection) -> (Seq<char>, Seq<char>) {
    match direction {
        DeviceDirection::Render => ("cable input"@, "voicemeeter input"@),
        DeviceDirection::Capture => ("cable output"@, "voicemeeter output"@),
    }
}

/// The cable that a device is an end of, if any. The lines of Virtual Audio
/// Cable carry its name in brackets, at both ends.
pub open spec fn cable_of(device: Device) -> Option<Seq<char>> {
    let name = crate::text::ascii_lowercase(device.friendly_name@);
    let (vb_cable, voicemeeter) = cable_prefix(device.direction);
    if vb_cable.is_prefix_of(name) {
        Some("VB-Cable"@)
    } else if voicemeeter.is_prefix_of(name) {
        Some("VoiceMeeter"@)
    } else if crate::text::occurs_in(name, "(virtual audio cable)"@) {
        Some("Virtual Audio Cable"@)
    } else {
        None
    }
}

/// The virtual cables that are looked for.
pub fn known_cable_products() -> (r: Vec<String>)
    ensures
        crate::text::views(r@) == seq!["VB-Cable"@, "VoiceMeeter"@, "Virtual Audio Cable"@],
{
    let mut out: Vec<String> = Vec::new();
    out.push("VB-Cable".to_owned());
    out.push("VoiceMeeter".to_owned());
    out.push("Virtual Audio Cable".to_owned());
    assert(crate::text::views(out@) =~= seq![
        "VB-Cable"@,
        "VoiceMeeter"@,
        "Virtual Audio Cable"@,
    ]);
    out
}

impl Device {
    /// The virtual cable that this device is an end of, if any: its input for a
    /// render device, its output for a capture device.
    pub fn virtual_cable(&self) -> (r: Option<&'static str>)
        ensures
            (match r {
                Some(product) => Some(product@),
                None => None,
            }) == cable_of(*self),
    {
        let name = to_ascii_lowercase(self.friendly_name.as_str());
        let (vb_cable, voicemeeter) = match self.direction {
            DeviceDirection::Render => ("cable input", "voicemeeter input"),
            DeviceDirection::Capture => ("cable output", "voicemeeter output"),
        };
        if starts_with(name.as_str(), vb_cable) {
            Some("VB-Cable")
        } else if starts_with(name.as_str(), voicemeeter) {
            Some("VoiceMeeter")
        } else if contains(name.as_str(), "(virtual audio cable)") {
            Some("Virtual Audio Cable")
        } else {
            None
        }
    }
}

/// The names of the devices, in order.
pub open spec fn names_of(devices: Seq<Device>) -> Seq<Seq<char>> {
    devices.map_values(|d: Device| d.friendly_name@)
}

/// The names of the devices, in order.
pub fn device_names(devices: &Vec<Device>) -> (r: Vec<String>)
    ensures
        crate::text::views(r@) == names_of(devices@),
{
    let mut out: Vec<String> = Vec::new();
    for i in 0..devices.len()
        invariant
            out@.len() == i,
            forall|j: int|
                0 <= j < i ==> (#[trigger] out@[j])@ == devices@[j].friendly_name@,
    {
        out.push(devices[i].friendly_name.clone());
    }
    assert(crate::text::views(out@) =~= names_of(devices@));
    out
}

/// The first of the devices that is wanted.
pub open spec fn first_wanted(devices: Seq<Device>, wanted: spec_fn(Device) -> bool) -> Option<
    Device,
>
    decreases devices.len(),
{
    if devices.len() == 0 {
        None
    } else if wanted(devices[0]) {
        Some(devices[0])
    } else {
        first_wanted(devices.drop_first(), wanted)
    }
}

proof fn lemma_first_wanted_at(
    devices: Seq<Device>,
    wanted: spec_fn(Device) -> bool,
    i: int,
)
    requires
        0 <= i < devices.len(),
        wanted(devices[i]),
        forall|j: int| 0 <= j < i ==> !wanted(#[trigger] devices[j]),
    ensures
        first_wanted(devices, wanted) == Some(devices[i]),
    decreases i,
{
    if i > 0 {
        assert(!wanted(devices[0]));
        let rest = devices.drop_first();
        assert forall|j: int| 0 <= j < i - 1 implies !wanted(#[trigger] rest[j]) by {
            assert(rest[j] == devices[j + 1]);
        }
        lemma_first_wanted_at(rest, wanted, i - 1);
    }
}

proof fn lemma_none_wanted(devices: Seq<Device>, wanted: spec_fn(Device) -> bool)
    requires
        forall|j: int| 0 <= j < devices.len() ==> !wanted(#[trigger] devices[j]),
    ensures
        first_wanted(devices, wanted) is None,
    decreases devices.len(),
{
    if devices.len() > 0 {
        assert(!wanted(devices[0]));
        let rest = devices.drop_first();
        assert forall|j: int| 0 <= j < rest.len() implies !wanted(#[trigger] rest[j]) by {
            assert(rest[j] == devices[j + 1]);
        }
        lemma_none_wanted(rest, wanted);
    }
}

pub(crate) proof fn lemma_some_wanted(
    devices: Seq<Device>,
    wanted: spec_fn(Device) -> bool,
    i: int,
)
    requires
        0 <= i < devices.len(),
        wanted(devices[i]),
    ensures
        first_wanted(devices, wanted) is Some,
    decreases i,
{
    if i > 0 {
        assert(devices.drop_first()[i - 1] == devices[i]);
        lemma_some_wanted(devices.drop_first(), wanted, i - 1);
    }
}

pub(crate) proof fn lemma_first_wanted_is_wanted(
    devices: Seq<Device>,
    wanted: spec_fn(Device) -> bool,
)
    ensures
        first_wanted(devices, wanted) matches Some(d) ==> devices.contains(d) && wanted(d),
    decreases devices.len(),
{
    if devices.len() > 0 {
        let rest = devices.drop_first();
        if wanted(devices[0]) {
            assert(devices.contains(devices[0]));
        } else {
            lemma_first_wanted_is_wanted(rest, wanted);
            if let Some(d) = first_wanted(rest, wanted) {
                let k = choose|k: int| 0 <= k < rest.len() && rest[k] == d;
                assert(devices[k + 1] == d);
            }
        }
    }
}

/// A device has exactly this name.
pub open spec fn goes_by(name: Seq<char>) -> spec_fn(Device) -> bool {
    |d: Device| d.friendly_name@ == name
}

/// A device has this name, but for the instance number.
pub open spec fn goes_by_about(name: Seq<char>) -> spec_fn(Device) -> bool {
    |d: Device| stable_name(d.friendly_name@) == stable_name(name)
}

/// A device is the default.
pub open spec fn default_one() -> spec_fn(Device) -> bool {
    |d: Device| d.is_default
}

/// A device is an end of a virtual cable.
pub open spec fn cable_end() -> spec_fn(Device) -> bool {
    |d: Device| cable_of(d) is Some
}

/// The device that goes by `name`: the one of exactly that name, else one that
/// differs from it only in the instance number.
pub open spec fn named(devices: Seq<Device>, name: Seq<char>) -> Option<Device> {
    match first_wanted(devices, goes_by(name)) {
        Some(device) => Some(device),
        None => first_wanted(devices, goes_by_about(name)),
    }
}

/// The capture device that `name` stands for: the default for an empty name.
pub open spec fn wanted_capture(devices: Seq<Device>, name: Seq<char>) -> Option<Device> {
    if name.len() == 0 {
        first_wanted(devices, default_one())
    } else {
        named(devices, name)
    }
}

/// The render device that `name` stands for: a virtual cable for an empty name,
/// and never the default.
pub open spec fn wanted_render(devices: Seq<Device>, name: Seq<char>) -> Option<Device> {
    if name.len() == 0 {
        first_wanted(devices, cable_end())
    } else {
        named(devices, name)
    }
}

pub(crate) proof fn lemma_named(devices: Seq<Device>, name: Seq<char>)
    ensures
        named(devices, name) matches Some(d) ==> devices.contains(d) && stable_name(
            d.friendly_name@,
        ) == stable_name(name),
{
    lemma_first_wanted_is_wanted(devices, goes_by(name));
    lemma_first_wanted_is_wanted(devices, goes_by_about(name));
}

/// What is at a place in a list of devices, if the place is given.
pub open spec fn device_at(devices: Seq<Device>, i: Option<usize>) -> Option<Device> {
    match i {
        Some(i) => Some(devices[i as int]),
        None => None,
    }
}

/// Where the device is that goes by `name`, if it is there.
fn position_of(devices: &Vec<Device>, name: &str) -> (r: Option<usize>)
    ensures
        r matches Some(i) ==> i < devices@.len(),
        device_at(devices@, r) == named(devices@, name@),
{
    for i in 0..devices.len()
        invariant
            forall|j: int| 0 <= j < i ==> !goes_by(name@)(#[trigger] devices@[j]),
    {
        if same_text(devices[i].friendly_name.as_str(), name) {
            proof {
                lemma_first_wanted_at(devices@, goes_by(name@), i as int);
            }
            return Some(i);
        }
    }
    proof {
        lemma_none_wanted(devices@, goes_by(name@));
    }
    for i in 0..devices.len()
        invariant
            first_wanted(devices@, goes_by(name@)) is None,
            forall|j: int| 0 <= j < i ==> !goes_by_about(name@)(#[trigger] devices@[j]),
    {
        if same_device_name(devices[i].friendly_name.as_str(), name) {
            proof {
                lemma_first_wanted_at(devices@, goes_by_about(name@), i as int);
            }
            return Some(i);
        }
    }
    proof {
        lemma_none_wanted(devices@, goes_by_about(name@));
    }
    None
}

/// Where the capture device is that `name` stands for, if it is there.
pub fn resolve_capture(devices: &Vec<Device>, name: &str) -> (r: Option<usize>)
    ensures
        r matches Some(i) ==> i < devices@.len(),
        device_at(devices@, r) == wanted_capture(devices@, name@),
{
    if !is_empty(name) {
        return position_of(devices, name);
    }
    for i in 0..devices.len()
        invariant
            name@.len() == 0,
            forall|j: int| 0 <= j < i ==> !default_one()(#[trigger] devices@[j]),
    {
        if devices[i].is_default {
            proof {
                lemma_first_wanted_at(devices@, default_one(), i as int);
            }
            return Some(i);
        }
    }
    proof {
        lemma_none_wanted(devices@, default_one());
    }
    None
}

/// Where the render device is that `name` stands for, if it is there.
pub fn resolve_render(devices: &Vec<Device>, name: &str) -> (r: Option<usize>)
    ensures
        r matches Some(i) ==> i < devices@.len(),
        device_at(devices@, r) == wanted_render(devices@, name@),
{
    if !is_empty(name) {
        return position_of(devices, name);
    }
    for i in 0..devices.len()
        invariant
            name@.len() == 0,
            forall|j: int| 0 <= j < i ==> !cable_end()(#[trigger] devices@[j]),
    {
        if let Some(_) = devices[i].virtual_cable() {
            proof {
                lemma_first_wanted_at(devices@, cable_end(), i as int);
            }
            return Some(i);
        }
    }
    proof {
        lemma_none_wanted(devices@, cable_end());
    }
    None
}

/// The endpoint that a stream is opened on.
#[derive(Debug, Clone, Copy, PartialEq, Eq, Structural)]
pub enum Endpoint {
    /// The system's default for communication.
    SystemDefault,
    /// The one with the given identifier.
    ById,
}

/// Which capture endpoint an identifier stands for.
pub fn capture_endpoint(id: &str) -> (r: Endpoint)
    ensures
        r == (if id@.len() == 0 || id@ == "default"@ {
            Endpoint::SystemDefault
        } else {
            Endpoint::ById
        }),
{
    if is_empty(id) || same_text(id, "default") {
        Endpoint::SystemDefault
    } else {
        Endpoint::ById
    }
}

/// Which render endpoint an identifier stands for.
pub fn render_endpoint(id: &str) -> (r: Endpoint)
    ensures
        r == (if id@.len() == 0 {
            Endpoint::SystemDefault
        } else {
            Endpoint::ById
        }),
{
    if is_empty(id) {
        Endpoint::SystemDefault
    } else {
        Endpoint::ById
    }
}

/// A device's name contains `needle`, whatever the case of ASCII letters.
pub open spec fn name_matches(device: Device, needle: Seq<char>) -> bool {
    crate::text::occurs_in(
        crate::text::ascii_lowercase(device.friendly_name@),
        crate::text::ascii_lowercase(needle),
    )
}

/// The names of the devices that match, in order.
pub open spec fn matching_names(devices: Seq<Device>, needle: Seq<char>) -> Seq<Seq<char>>
    decreases devices.len(),
{
    if devices.len() == 0 {
        Seq::empty()
    } else {
        let rest = matching_names(devices.drop_last(), needle);
        if name_matches(devices.last(), needle) {
            rest.push(devices.last().friendly_name@)
        } else {
            rest
        }
    }
}

/// Why a substring that does not single out one device is refused.
pub open spec fn ambiguous_text(names: Seq<Seq<char>>) -> Seq<char> {
    if names.len() == 0 {
        "no capture device matched"@
    } else {
        "ambiguous: "@ + crate::text::decimal(names.len()) + " devices matched ("@
            + crate::text::joined(names, ", "@) + "). Refine the substring."@
    }
}

/// The one capture device whose name contains `needle`.
pub fn resolve_mic_by_substring(devices: &Vec<Device>, needle: &str) -> (r: Result<String, String>)
    ensures
        ({
            let names = matching_names(devices@, needle@);
            &&& r is Ok <==> names.len() == 1
            &&& r matches Ok(name) ==> name@ == names[0]
            &&& r matches Err(why) ==> why@ == ambiguous_text(names)
        }),
{
    let needle_lc = to_ascii_lowercase(needle);
    let mut names: Vec<String> = Vec::new();
    for i in 0..devices.len()
        invariant
            needle_lc@ == crate::text::ascii_lowercase(needle@),
            crate::text::views(names@) == matching_names(devices@.take(i as int), needle@),
    {
        let ghost before = names@;
        let ghost done = devices@.take(i as int);
        assert(devices@.take(i + 1).drop_last() =~= done);
        let lower = to_ascii_lowercase(devices[i].friendly_name.as_str());
        if contains(lower.as_str(), needle_lc.as_str()) {
            names.push(devices[i].friendly_name.clone());
            assert(crate::text::views(names@) =~= crate::text::views(before).push(
                devices@[i as int].friendly_name@,
            ));
        }
    }
    assert(devices@.take(devices@.len() as int) =~= devices@);
    let n: usize = names.len();
    assert(crate::text::views(names@).len() == n);
    if n == 1 {
        let name = names[0].clone();
        assert(name@ == crate::text::views(names@)[0]);
        return Ok(name);
    }
    if n == 0 {
        return Err("no capture device matched".to_owned());
    }
    let mut why = "ambiguous: ".to_owned();
    push_decimal(&mut why, n as u64);
    why.append(" devices matched (");
    let list = join(&names, ", ");
    why.append(list.as_str());
    why.append("). Refine the substring.");
    Err(why)
}

/// One device of the listing. `product` is the virtual cable that the device
/// leads into, if it is one.
pub open spec fn listed_device(device: Device, product: Option<Seq<char>>) -> Seq<char> {
    "  - "@ + device.friendly_name@ + (if device.is_default {
        " [default]"@
    } else {
        ""@
    }) + (match product {
        Some(p) => "  ["@ + p + "]"@,
        None => ""@,
    }) + "\n    id: "@ + device.id@ + "\n"@
}

/// The text of a list of microphones.
pub open spec fn listed_inputs(devices: Seq<Device>) -> Seq<char>
    decreases devices.len(),
{
    if devices.len() == 0 {
        Seq::empty()
    } else {
        listed_inputs(devices.drop_last()) + listed_device(devices.last(), None)
    }
}

/// The text of a list of outputs, each with the virtual cable it leads into.
pub open spec fn listed_outputs(devices: Seq<(Device, Option<String>)>) -> Seq<char>
    decreases devices.len(),
{
    if devices.len() == 0 {
        Seq::empty()
    } else {
        listed_outputs(devices.drop_last()) + listed_device(
            devices.last().0,
            crate::paths::opt_view(devices.last().1),
        )
    }
}

fn push_device(out: &mut String, device: &Device, product: &Option<String>)
    ensures
        final(out)@ == old(out)@ + listed_device(*device, crate::paths::opt_view(*product)),
{
    out.append("  - ");
    out.append(device.friendly_name.as_str());
    if device.is_default {
        out.append(" [default]");
    } else {
        out.append("");
    }
    match product {
        Some(product) => {
            out.append("  [");
            out.append(product.as_str());
            out.append("]");
        },
        None => {
            out.append("");
        },
    }
    out.append("\n    id: ");
    out.append(device.id.as_str());
    out.append("\n");
    assert(out@ =~= old(out)@ + listed_device(*device, crate::paths::opt_view(*product)));
}

/// The inventory that `--list-devices` prints: microphones, then outputs, with
/// the virtual cables among the outputs marked.
pub fn list_devices(capture: &Vec<Device>, render: &Vec<(Device, Option<String>)>) -> (r: String)
    ensures
        r@ == "Capture (input) devices:\n"@ + listed_inputs(capture@)
            + "\nRender (output) devices:\n"@ + listed_outputs(render@),
{
    let mut out = "Capture (input) devices:\n".to_owned();
    let ghost head = out@;
    assert(out@ =~= head + listed_inputs(capture@.take(0)));
    for i in 0..capture.len()
        invariant
            out@ == head + listed_inputs(capture@.take(i as int)),
    {
        assert(capture@.take(i + 1).drop_last() =~= capture@.take(i as int));
        push_device(&mut out, &capture[i], &None);
        assert(out@ =~= head + listed_inputs(capture@.take(i + 1)));
    }
    assert(capture@.take(capture@.len() as int) =~= capture@);
    out.append("\nRender (output) devices:\n");
    let ghost head = out@;
    assert(out@ =~= head + listed_outputs(render@.take(0)));
    for i in 0..render.len()
        invariant
            out@ == head + listed_outputs(render@.take(i as int)),
    {
        assert(render@.take(i + 1).drop_last() =~= render@.take(i as int));
        push_device(&mut out, &render[i].0, &render[i].1);
        assert(out@ =~= head + listed_outputs(render@.take(i + 1)));
    }
    assert(render@.take(render@.len() as int) =~= render@);
    out
}

/// What the log says of each microphone at startup.
pub fn log_input_devices(devices: &Vec<Device>) -> (r: Vec<String>)
    ensures
        r@.len() == devices@.len(),
        forall|i: int|
            0 <= i < devices@.len() ==> (#[trigger] r@[i])@ == "input device available"@ + (
            if devices@[i].is_default {
                " (default)"@
            } else {
                ""@
            }),
{
    let mut out: Vec<String> = Vec::new();
    for i in 0..devices.len()
        invariant
            out@.len() == i,
            forall|j: int|
                0 <= j < i ==> (#[trigger] out@[j])@ == "input device available"@ + (
                if devices@[j].is_default {
                    " (default)"@
                } else {
                    ""@
                }),
    {
        let mut line = "input device available".to_owned();
        if devices[i].is_default {
            line.append(" (default)");
        } else {
            line.append("");
        }
        out.push(line);
    }
    out
}

/// An instance number in front of the product is dropped, whatever its digits,
/// and the rest of the name is kept.
pub proof fn law_the_instance_number_is_dropped(
    kind: Seq<char>,
    number: Seq<char>,
    product: Seq<char>,
)
    requires
        !kind.contains('('),
        number.len() > 0,
        forall|k: int| 0 <= k < number.len() ==> '0' <= #[trigger] number[k] <= '9',
    ensures
        stable_name(kind + seq!['('] + number + seq!['-', ' '] + product) == kind + seq!['(']
            + product,
{
    lemma_stable_name(kind, number, product);
    assert(kind + seq!['('] =~= kind.push('('));
}

proof fn lemma_label_is_behind_the_first_bracket(s: Seq<char>, i: int)
    requires
        0 <= i <= s.len(),
    ensures
        ({
            let at = label_start(s, i);
            if at == 0 {
                forall|k: int| i <= k < s.len() ==> #[trigger] s[k] != '('
            } else {
                &&& i < at <= s.len()
                &&& s[at - 1] == '('
                &&& forall|k: int| i <= k < at - 1 ==> #[trigger] s[k] != '('
            }
        }),
    decreases s.len() - i,
{
    if i < s.len() && s[i] != '(' {
        lemma_label_is_behind_the_first_bracket(s, i + 1);
    }
}

proof fn lemma_digits_are_digits(s: Seq<char>, i: int)
    requires
        0 <= i <= s.len(),
    ensures
        i + digits_from(s, i) <= s.len(),
        forall|k: int| i <= k < i + digits_from(s, i) ==> '0' <= #[trigger] s[k] <= '9',
    decreases s.len() - i,
{
    if i < s.len() && '0' <= s[i] <= '9' {
        lemma_digits_are_digits(s, i + 1);
    }
}

/// Nothing but an instance number is ever dropped: a name that is changed had
/// digits, a hyphen and a space directly behind its first bracket, or at its
/// start where it has no bracket, and it is these that are gone.
pub proof fn law_nothing_but_an_instance_number_is_dropped(s: Seq<char>) -> (r: (
    Seq<char>,
    Seq<char>,
    Seq<char>,
))
    requires
        stable_name(s) != s,
    ensures
        s == r.0 + r.1 + seq!['-', ' '] + r.2,
        stable_name(s) == r.0 + r.2,
        r.1.len() > 0,
        forall|k: int| 0 <= k < r.1.len() ==> '0' <= #[trigger] r.1[k] <= '9',
        r.0.len() == 0 ==> !s.contains('('),
        r.0.len() > 0 ==> r.0.last() == '(' && !r.0.drop_last().contains('('),
{
    let start = label_start(s, 0);
    lemma_label_is_behind_the_first_bracket(s, 0);
    lemma_digits_are_digits(s, start);
    let end = start + digits_from(s, start);
    let r = (s.take(start), s.subrange(start, end), s.skip(end + 2));
    assert(s =~= r.0 + r.1 + seq!['-', ' '] + r.2);
    assert forall|k: int| 0 <= k < r.1.len() implies '0' <= #[trigger] r.1[k] <= '9' by {
        assert(r.1[k] == s[start + k]);
    }
    if start > 0 {
        let head = r.0.drop_last();
        assert(r.0.last() == s[start - 1]);
        assert forall|k: int| 0 <= k < head.len() implies #[trigger] head[k] != '(' by {
            assert(head[k] == s[k]);
        }
    }
    r
}

/// A name stands for the first device of exactly that name; where there is
/// none, for the first that differs in the instance number alone; and for
/// nothing where there is none of these either.
pub proof fn law_a_name_stands_for_the_first_that_fits(
    devices: Seq<Device>,
    name: Seq<char>,
    i: int,
)
    requires
        name.len() > 0,
    ensures
        0 <= i < devices.len() && devices[i].friendly_name@ == name && (forall|j: int|
            0 <= j < i ==> (#[trigger] devices[j]).friendly_name@ != name) ==> wanted_capture(
            devices,
            name,
        ) == Some(devices[i]) && wanted_render(devices, name) == Some(devices[i]),
        (forall|j: int|
            0 <= j < devices.len() ==> (#[trigger] devices[j]).friendly_name@ != name) && 0 <= i
            < devices.len() && stable_name(devices[i].friendly_name@) == stable_name(name) && (
        forall|j: int|
            0 <= j < i ==> stable_name((#[trigger] devices[j]).friendly_name@) != stable_name(
                name,
            )) ==> wanted_capture(devices, name) == Some(devices[i]) && wanted_render(
            devices,
            name,
        ) == Some(devices[i]),
        (forall|j: int|
            0 <= j < devices.len() ==> stable_name((#[trigger] devices[j]).friendly_name@)
                != stable_name(name)) ==> wanted_capture(devices, name) is None && wanted_render(
            devices,
            name,
        ) is None,
{
    let exact = goes_by(name);
    let about = goes_by_about(name);
    if 0 <= i < devices.len() && devices[i].friendly_name@ == name && (forall|j: int|
        0 <= j < i ==> (#[trigger] devices[j]).friendly_name@ != name) {
        lemma_first_wanted_at(devices, exact, i);
    }
    if (forall|j: int|
        0 <= j < devices.len() ==> (#[trigger] devices[j]).friendly_name@ != name) && 0 <= i
        < devices.len() && stable_name(devices[i].friendly_name@) == stable_name(name) && (forall|
        j: int,
    |
        0 <= j < i ==> stable_name((#[trigger] devices[j]).friendly_name@) != stable_name(name)) {
        lemma_none_wanted(devices, exact);
        lemma_first_wanted_at(devices, about, i);
    }
    if forall|j: int|
        0 <= j < devices.len() ==> stable_name((#[trigger] devices[j]).friendly_name@)
            != stable_name(name) {
        lemma_none_wanted(devices, exact);
        lemma_none_wanted(devices, about);
    }
}

/// Without a name the microphone is the first default one, and the output the
/// first end of a virtual cable, be it the default or not. Where there is none
/// of the kind there is no device.
pub proof fn law_no_name_stands_for_the_default_or_a_cable(
    devices: Seq<Device>,
    name: Seq<char>,
    i: int,
)
    requires
        name.len() == 0,
    ensures
        0 <= i < devices.len() && devices[i].is_default && (forall|j: int|
            0 <= j < i ==> !(#[trigger] devices[j]).is_default) ==> wanted_capture(devices, name)
            == Some(devices[i]),
        0 <= i < devices.len() && cable_of(devices[i]) is Some && (forall|j: int|
            0 <= j < i ==> cable_of(#[trigger] devices[j]) is None) ==> wanted_render(devices, name)
            == Some(devices[i]),
        (forall|j: int| 0 <= j < devices.len() ==> !(#[trigger] devices[j]).is_default)
            ==> wanted_capture(devices, name) is None,
        (forall|j: int| 0 <= j < devices.len() ==> cable_of(#[trigger] devices[j]) is None)
            ==> wanted_render(devices, name) is None,
{
    if 0 <= i < devices.len() && devices[i].is_default && (forall|j: int|
        0 <= j < i ==> !(#[trigger] devices[j]).is_default) {
        lemma_first_wanted_at(devices, default_one(), i);
    }
    if 0 <= i < devices.len() && cable_of(devices[i]) is Some && (forall|j: int|
        0 <= j < i ==> cable_of(#[trigger] devices[j]) is None) {
        lemma_first_wanted_at(devices, cable_end(), i);
    }
    if forall|j: int| 0 <= j < devices.len() ==> !(#[trigger] devices[j]).is_default {
        lemma_none_wanted(devices, default_one());
    }
    if forall|j: int| 0 <= j < devices.len() ==> cable_of(#[trigger] devices[j]) is None {
        lemma_none_wanted(devices, cable_end());
    }
}

/// The matches of two lists that were put together are those of the first and
/// then those of the second; one device matches by itself or not at all.
pub proof fn law_matches_are_gathered_in_order(
    a: Seq<Device>,
    b: Seq<Device>,
    one: Device,
    needle: Seq<char>,
)
    ensures
        matching_names(a + b, needle) == matching_names(a, needle) + matching_names(b, needle),
        matching_names(Seq::empty(), needle) == Seq::<Seq<char>>::empty(),
        matching_names(seq![one], needle) == (if crate::text::occurs_in(
            crate::text::ascii_lowercase(one.friendly_name@),
            crate::text::ascii_lowercase(needle),
        ) {
            seq![one.friendly_name@]
        } else {
            Seq::empty()
        }),
    decreases b.len(),
{
    assert(seq![one].drop_last() =~= Seq::<Device>::empty());
    assert(matching_names(Seq::<Device>::empty(), needle) =~= Seq::<Seq<char>>::empty());
    assert(matching_names(seq![one].drop_last(), needle).push(one.friendly_name@) =~= seq![
        one.friendly_name@,
    ]);
    if b.len() == 0 {
        assert(a + b =~= a);
        assert(matching_names(a, needle) + matching_names(b, needle) =~= matching_names(a, needle));
    } else {
        assert((a + b).drop_last() =~= a + b.drop_last());
        assert((a + b).last() == b.last());
        law_matches_are_gathered_in_order(a, b.drop_last(), one, needle);
        assert(matching_names(a + b, needle) =~= matching_names(a, needle) + matching_names(
            b,
            needle,
        ));
    }
}

} // verus!
