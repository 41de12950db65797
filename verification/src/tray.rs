//! The tray: what its menu shows, what a click does, and the watch over an
//! audio stream that falls silent without saying so.
use vstd::prelude::*;
use vstd::string::StringExecFns;

use crate::config::Config;
use crate::devices::{device_names, same_device_name, Device};
use crate::text::{is_empty, same_text};

verus! {

/// Where to send someone who has no virtual audio cable.
pub const CABLE_DOWNLOAD_URL: &'static str = "https://vb-audio.com/Cable/";

/// Frames that stop for this long mean that the stream is dead, not that the
/// room is quiet.
pub const STALL_AFTER_NS: u64 = 2_000_000_000;

/// The least time between two attempts to recover, so that a device that stays
/// gone is not hammered.
pub const RECOVERY_INTERVAL_NS: u64 = 5_000_000_000;

/// The time from `then` to `now`.
pub open spec fn elapsed(now: u64, then: u64) -> int {
    if now >= then {
        now - then
    } else {
        0
    }
}

fn elapsed_ns(now: u64, then: u64) -> (r: u64)
    ensures
        r == elapsed(now, then),
{
    if now >= then {
        now - then
    } else {
        0
    }
}

/// Watches for the pipeline going quiet.
///
/// A dead capture stream simply never signals again. Its threads stay alive and
/// silence keeps being rendered, so the one honest sign is the count of frames:
/// silence still makes frames, a dead stream does not.
#[derive(Debug, Clone, Copy, PartialEq, Eq, Structural)]
pub struct Health {
    pub last_frames: u64,
    /// When the count last moved.
    pub last_change_ns: u64,
    /// When recovery was last attempted.
    pub last_recovery_ns: u64,
    /// The stream is known to be dead.
    pub stalled: bool,
}

/// What a look at the stream calls for.
#[derive(Debug, Clone, Copy, PartialEq, Eq, Structural)]
pub struct HealthReport {
    /// The stream came back by itself.
    pub recovered: bool,
    /// The stream has just been found dead, this long after its last frame.
    pub stalled_for_ns: Option<u64>,
    /// The icon has to be drawn anew.
    pub refresh_icon: bool,
    /// The pipeline has to be started anew.
    pub restart: bool,
}

/// What a look at the count of frames, which is `None` while no pipeline runs,
/// leaves behind.
pub open spec fn looked(before: Health, frames: Option<u64>, now_ns: u64) -> Health {
    let last_recovery_ns = if before.wants_restart(frames, now_ns) {
        now_ns
    } else {
        before.last_recovery_ns
    };
    match frames {
        None => Health { last_recovery_ns, ..before },
        Some(count) => Health {
            last_frames: count,
            last_change_ns: if count != before.last_frames {
                now_ns
            } else {
                before.last_change_ns
            },
            last_recovery_ns,
            stalled: if count != before.last_frames {
                false
            } else {
                before.stalled || before.is_dead(count, now_ns)
            },
        },
    }
}

/// What a run of looks, each at a count and a time, leaves behind.
pub open spec fn watched(before: Health, looks: Seq<(Option<u64>, u64)>) -> Health
    decreases looks.len(),
{
    if looks.len() == 0 {
        before
    } else {
        looked(watched(before, looks.drop_last()), looks.last().0, looks.last().1)
    }
}

impl Health {
    /// A watch over a stream that has just been started.
    pub fn new(now_ns: u64) -> (r: Self)
        ensures
            r == (Health {
                last_frames: 0,
                last_change_ns: now_ns,
                last_recovery_ns: now_ns,
                stalled: false,
            }),
    {
        Health {
            last_frames: 0,
            last_change_ns: now_ns,
            last_recovery_ns: now_ns,
            stalled: false,
        }
    }

    /// The count stands where it stood, and has for so long that the stream is
    /// dead.
    pub open spec fn is_dead(&self, frames: u64, now_ns: u64) -> bool {
        frames == self.last_frames && elapsed(now_ns, self.last_change_ns) >= STALL_AFTER_NS
    }

    /// The pipeline has to be started anew: its stream is dead, or it died and
    /// the last attempt left no pipeline at all, and the last attempt is long
    /// enough ago.
    pub open spec fn wants_restart(&self, frames: Option<u64>, now_ns: u64) -> bool {
        &&& match frames {
            Some(count) => self.is_dead(count, now_ns),
            None => self.stalled,
        }
        &&& elapsed(now_ns, self.last_recovery_ns) >= RECOVERY_INTERVAL_NS
    }

    /// Look at the count of frames, which is `None` while no pipeline runs.
    ///
    /// Where there is none because a restart failed, another one is due after
    /// the interval: a device that stays gone is tried again, not given up on.
    /// Where none was running that could have died, there is nothing to do.
    pub fn check(&mut self, frames: Option<u64>, now_ns: u64) -> (r: HealthReport)
        ensures
            r.restart == old(self).wants_restart(frames, now_ns),
            *final(self) == looked(*old(self), frames, now_ns),
            frames is None ==> !r.recovered && r.stalled_for_ns is None && !r.refresh_icon,
            frames matches Some(count) ==> {
                let moved = count != old(self).last_frames;
                let dead = old(self).is_dead(count, now_ns);
                &&& r.recovered == (moved && old(self).stalled)
                &&& r.stalled_for_ns == (if dead && !old(self).stalled {
                    Some(elapsed(now_ns, old(self).last_change_ns) as u64)
                } else {
                    None
                })
                &&& r.refresh_icon == (r.recovered || r.stalled_for_ns is Some)
            },
    {
        let mut report = HealthReport {
            recovered: false,
            stalled_for_ns: None,
            refresh_icon: false,
            restart: false,
        };
        let frames: u64 = match frames {
            Some(frames) => frames,
            None => {
                if self.stalled && elapsed_ns(now_ns, self.last_recovery_ns)
                    >= RECOVERY_INTERVAL_NS {
                    self.last_recovery_ns = now_ns;
                    report.restart = true;
                }
                return report;
            },
        };
        if frames != self.last_frames {
            self.last_frames = frames;
            self.last_change_ns = now_ns;
            if self.stalled {
                self.stalled = false;
                report.recovered = true;
                report.refresh_icon = true;
            }
            return report;
        }
        let quiet: u64 = elapsed_ns(now_ns, self.last_change_ns);
        if quiet < STALL_AFTER_NS {
            return report;
        }
        if !self.stalled {
            self.stalled = true;
            report.stalled_for_ns = Some(quiet);
            report.refresh_icon = true;
        }
        if elapsed_ns(now_ns, self.last_recovery_ns) < RECOVERY_INTERVAL_NS {
            return report;
        }
        self.last_recovery_ns = now_ns;
        report.restart = true;
        report
    }

    /// The pipeline was started anew, and counts from `frames`.
    pub fn restarted(&mut self, frames: u64, now_ns: u64)
        ensures
            *final(self) == (Health {
                last_frames: frames,
                last_change_ns: now_ns,
                last_recovery_ns: old(self).last_recovery_ns,
                stalled: false,
            }),
    {
        self.last_frames = frames;
        self.last_change_ns = now_ns;
        self.stalled = false;
    }
}

/// A device that stays gone is not hammered: after an attempt to recover, no
/// look within five seconds attempts it again, whatever the looks see and
/// whether or not the attempt left a pipeline.
pub proof fn law_recovery_is_not_hammered(
    before: Health,
    frames: Option<u64>,
    now_ns: u64,
    looks: Seq<(Option<u64>, u64)>,
)
    requires
        before.wants_restart(frames, now_ns),
        forall|k: int|
            0 <= k < looks.len() ==> now_ns <= (#[trigger] looks[k]).1 < now_ns
                + RECOVERY_INTERVAL_NS,
    ensures
        watched(looked(before, frames, now_ns), looks).last_recovery_ns == now_ns,
        forall|k: int|
            0 <= k < looks.len() ==> !watched(
                looked(before, frames, now_ns),
                looks.take(k),
            ).wants_restart((#[trigger] looks[k]).0, looks[k].1),
    decreases looks.len(),
{
    if looks.len() > 0 {
        let fewer = looks.drop_last();
        law_recovery_is_not_hammered(before, frames, now_ns, fewer);
        assert forall|k: int| 0 <= k < looks.len() implies !watched(
            looked(before, frames, now_ns),
            looks.take(k),
        ).wants_restart((#[trigger] looks[k]).0, looks[k].1) by {
            if k < fewer.len() {
                assert(fewer[k] == looks[k]);
                assert(fewer.take(k) =~= looks.take(k));
            } else {
                assert(looks.take(k) =~= fewer);
            }
        }
        assert(looks.take(looks.len() - 1) =~= fewer);
    }
}

/// A device that stays gone is not given up on: where an attempt to recover
/// failed and left no pipeline, the first look that comes five seconds later or
/// more attempts it again, whatever looks came before it.
pub proof fn law_recovery_is_tried_again(
    before: Health,
    frames: Option<u64>,
    now_ns: u64,
    looks: Seq<u64>,
    later_ns: u64,
)
    requires
        before.wants_restart(frames, now_ns),
        forall|k: int|
            0 <= k < looks.len() ==> now_ns <= #[trigger] looks[k] < now_ns + RECOVERY_INTERVAL_NS,
        later_ns >= now_ns + RECOVERY_INTERVAL_NS,
    ensures
        watched(
            looked(before, frames, now_ns),
            Seq::new(looks.len(), |k: int| (None, looks[k])),
        ).wants_restart(None, later_ns),
{
    let none: Seq<(Option<u64>, u64)> = Seq::new(looks.len(), |k: int| (None, looks[k]));
    let after = looked(before, frames, now_ns);
    law_recovery_is_not_hammered(before, frames, now_ns, none);
    lemma_no_pipeline_stays_stalled(after, none);
}

proof fn lemma_no_pipeline_stays_stalled(before: Health, looks: Seq<(Option<u64>, u64)>)
    requires
        forall|k: int| 0 <= k < looks.len() ==> (#[trigger] looks[k]).0 is None,
    ensures
        watched(before, looks).stalled == before.stalled,
    decreases looks.len(),
{
    if looks.len() > 0 {
        let fewer = looks.drop_last();
        assert forall|k: int| 0 <= k < fewer.len() implies (#[trigger] fewer[k]).0 is None by {
            assert(fewer[k] == looks[k]);
        }
        lemma_no_pipeline_stays_stalled(before, fewer);
    }
}

/// A quiet room is never taken for a dead stream: as long as the count moves
/// between looks, nothing is ever found dead.
pub proof fn law_moving_frames_are_never_stalled(before: Health, frames: u64, now_ns: u64)
    requires
        frames != before.last_frames,
    ensures
        !before.is_dead(frames, now_ns),
        !before.wants_restart(Some(frames), now_ns),
        !looked(before, Some(frames), now_ns).stalled,
{
}

/// Whether the microphone reaches nobody, which is what the badge is for: no
/// pipeline at all, or one that has stopped delivering.
pub fn audio_is_broken(running: bool, stalled: bool) -> (r: bool)
    ensures
        r == (!running || stalled),
{
    !running || stalled
}

/// The label of a microphone in the menu.
pub open spec fn mic_label_of(name: Seq<char>, is_system_default: bool) -> Seq<char> {
    if is_system_default {
        name + "  (system default)"@
    } else {
        name
    }
}

/// The label of a microphone in the menu.
pub fn mic_label(name: &str, is_system_default: bool) -> (r: String)
    ensures
        r@ == mic_label_of(name@, is_system_default),
{
    let mut label = name.to_owned();
    if is_system_default {
        label.append("  (system default)");
    }
    label
}

/// What choosing a line of the menu does.
#[derive(Debug)]
pub enum Command {
    /// Switch noise removal on or off.
    Toggle,
    /// Record from this microphone; an empty name follows Windows' default.
    SelectMic { device_id: String, name: String },
    /// Use the model, or the built-in noise removal.
    SelectDenoiser { onnx: bool },
    /// Switch starting with Windows on or off.
    AutoStart,
    OpenLogs,
    Quit,
}

/// One line of the menu.
#[derive(Debug)]
pub enum MenuLine {
    /// A line with a check mark.
    Check { label: String, checked: bool, command: Command },
    /// A plain line.
    Item { label: String, command: Command },
    /// A line that only says something.
    Note { label: String },
    Separator,
    /// The submenu of microphones.
    Microphones,
    /// The submenu of denoisers.
    Denoisers,
}

/// The same, as text.
pub enum LineView {
    Check { label: Seq<char>, checked: bool, command: CommandView },
    Item { label: Seq<char>, command: CommandView },
    Note { label: Seq<char> },
    Separator,
    Microphones,
    Denoisers,
}

/// A command, as text.
pub enum CommandView {
    Toggle,
    SelectMic { device_id: Seq<char>, name: Seq<char> },
    SelectDenoiser { onnx: bool },
    AutoStart,
    OpenLogs,
    Quit,
}

impl View for Command {
    type V = CommandView;

    open spec fn view(&self) -> CommandView {
        match self {
            Command::Toggle => CommandView::Toggle,
            Command::SelectMic { device_id, name } => CommandView::SelectMic {
                device_id: device_id@,
                name: name@,
            },
            Command::SelectDenoiser { onnx } => CommandView::SelectDenoiser { onnx: *onnx },
            Command::AutoStart => CommandView::AutoStart,
            Command::OpenLogs => CommandView::OpenLogs,
            Command::Quit => CommandView::Quit,
        }
    }
}

impl Command {
    /// The same command again.
    pub fn copy(&self) -> (r: Command)
        ensures
            r@ == self@,
    {
        match self {
            Command::Toggle => Command::Toggle,
            Command::SelectMic { device_id, name } => Command::SelectMic {
                device_id: device_id.clone(),
                name: name.clone(),
            },
            Command::SelectDenoiser { onnx } => Command::SelectDenoiser { onnx: *onnx },
            Command::AutoStart => Command::AutoStart,
            Command::OpenLogs => Command::OpenLogs,
            Command::Quit => Command::Quit,
        }
    }
}

impl View for MenuLine {
    type V = LineView;

    open spec fn view(&self) -> LineView {
        match self {
            MenuLine::Check { label, checked, command } => LineView::Check {
                label: label@,
                checked: *checked,
                command: command@,
            },
            MenuLine::Item { label, command } => LineView::Item {
                label: label@,
                command: command@,
            },
            MenuLine::Note { label } => LineView::Note { label: label@ },
            MenuLine::Separator => LineView::Separator,
            MenuLine::Microphones => LineView::Microphones,
            MenuLine::Denoisers => LineView::Denoisers,
        }
    }
}

/// What the lines of a menu show.
pub open spec fn shown(lines: Seq<MenuLine>) -> Seq<LineView> {
    lines.map_values(|line: MenuLine| line@)
}

/// The main menu.
pub open spec fn main_menu(enabled: bool, auto_start: bool) -> Seq<LineView> {
    seq![
        LineView::Check { label: "Enabled"@, checked: enabled, command: CommandView::Toggle },
        LineView::Separator,
        LineView::Microphones,
        LineView::Denoisers,
        LineView::Separator,
        LineView::Check {
            label: "Start with Windows"@,
            checked: auto_start,
            command: CommandView::AutoStart,
        },
        LineView::Item { label: "Open log folder"@, command: CommandView::OpenLogs },
        LineView::Separator,
        LineView::Item { label: "Quit NoiseGate"@, command: CommandView::Quit },
    ]
}

/// A microphone's line. `selected` is the name of the microphone in use, empty
/// where Windows' default is followed.
pub open spec fn mic_line(device: Device, selected: Seq<char>) -> LineView {
    LineView::Check {
        label: mic_label_of(device.friendly_name@, device.is_default),
        checked: selected.len() > 0 && crate::devices::stable_name(device.friendly_name@)
            == crate::devices::stable_name(selected),
        command: CommandView::SelectMic { device_id: device.id@, name: device.friendly_name@ },
    }
}

/// The line that follows Windows' default.
pub open spec fn default_mic_line(selected: Seq<char>) -> LineView {
    LineView::Check {
        label: "Windows default"@,
        checked: selected.len() == 0,
        command: CommandView::SelectMic { device_id: ""@, name: ""@ },
    }
}

/// The submenu of microphones. `devices` is `None` where they could not be
/// listed.
pub open spec fn mic_menu(devices: Option<Seq<Device>>, selected: Seq<char>) -> Seq<LineView> {
    let first = seq![default_mic_line(selected)];
    match devices {
        None => first.push(LineView::Note { label: "(no microphones found)"@ }),
        Some(list) => if list.len() == 0 {
            first
        } else {
            first.push(LineView::Separator) + list.map_values(|d: Device| mic_line(d, selected))
        },
    }
}

/// The submenu of denoisers. `model` is the file name of the model there is, if
/// there is one.
pub open spec fn denoiser_menu(
    onnx_built: bool,
    model: Option<Seq<char>>,
    onnx_active: bool,
) -> Seq<LineView> {
    seq![
        LineView::Check {
            label: "RNNoise (built-in)"@,
            checked: !onnx_active,
            command: CommandView::SelectDenoiser { onnx: false },
        },
        match (onnx_built, model) {
            (true, Some(name)) => LineView::Check {
                label: name + " (ONNX)"@,
                checked: onnx_active,
                command: CommandView::SelectDenoiser { onnx: true },
            },
            (true, None) => LineView::Note { label: "(no model.onnx found)"@ },
            (false, _) => LineView::Note { label: "(built without --features onnx)"@ },
        },
    ]
}

/// The menu and its two submenus.
#[derive(Debug)]
pub struct TrayMenu {
    pub lines: Vec<MenuLine>,
    pub microphones: Vec<MenuLine>,
    pub denoisers: Vec<MenuLine>,
}

fn build_main_menu(enabled: bool, auto_start: bool) -> (r: Vec<MenuLine>)
    ensures
        shown(r@) == main_menu(enabled, auto_start),
{
    let mut lines: Vec<MenuLine> = Vec::new();
    lines.push(
        MenuLine::Check { label: "Enabled".to_owned(), checked: enabled, command: Command::Toggle },
    );
    lines.push(MenuLine::Separator);
    lines.push(MenuLine::Microphones);
    lines.push(MenuLine::Denoisers);
    lines.push(MenuLine::Separator);
    lines.push(
        MenuLine::Check {
            label: "Start with Windows".to_owned(),
            checked: auto_start,
            command: Command::AutoStart,
        },
    );
    lines.push(MenuLine::Item { label: "Open log folder".to_owned(), command: Command::OpenLogs });
    lines.push(MenuLine::Separator);
    lines.push(MenuLine::Item { label: "Quit NoiseGate".to_owned(), command: Command::Quit });
    assert(shown(lines@) =~= main_menu(enabled, auto_start));
    lines
}

fn build_mic_menu(devices: Option<&Vec<Device>>, selected: &str) -> (r: Vec<MenuLine>)
    ensures
        shown(r@) == mic_menu(
            match devices {
                Some(list) => Some(list@),
                None => None,
            },
            selected@,
        ),
{
    let follow_default = is_empty(selected);
    let mut lines: Vec<MenuLine> = Vec::new();
    lines.push(
        MenuLine::Check {
            label: "Windows default".to_owned(),
            checked: follow_default,
            command: Command::SelectMic { device_id: "".to_owned(), name: "".to_owned() },
        },
    );
    assert(shown(lines@) =~= seq![default_mic_line(selected@)]);
    let ghost first = shown(lines@);
    match devices {
        None => {
            lines.push(MenuLine::Note { label: "(no microphones found)".to_owned() });
            assert(shown(lines@) =~= first.push(
                LineView::Note { label: "(no microphones found)"@ },
            ));
        },
        Some(list) => {
            if list.len() > 0 {
                lines.push(MenuLine::Separator);
                let ghost head = first.push(LineView::Separator);
                assert(shown(lines@) =~= head + list@.take(0).map_values(
                    |d: Device| mic_line(d, selected@),
                ));
                for i in 0..list.len()
                    invariant
                        follow_default == (selected@.len() == 0),
                        shown(lines@) == head + list@.take(i as int).map_values(
                            |d: Device| mic_line(d, selected@),
                        ),
                {
                    let ghost before = lines@;
                    let device = &list[i];
                    let checked = !follow_default && same_device_name(
                        device.friendly_name.as_str(),
                        selected,
                    );
                    let line = MenuLine::Check {
                        label: mic_label(device.friendly_name.as_str(), device.is_default),
                        checked,
                        command: Command::SelectMic {
                            device_id: device.id.clone(),
                            name: device.friendly_name.clone(),
                        },
                    };
                    assert(line@ == mic_line(list@[i as int], selected@));
                    lines.push(line);
                    assert(shown(lines@) =~= shown(before).push(
                        mic_line(list@[i as int], selected@),
                    ));
                    assert(list@.take(i + 1).map_values(|d: Device| mic_line(d, selected@))
                        =~= list@.take(i as int).map_values(
                        |d: Device| mic_line(d, selected@),
                    ).push(mic_line(list@[i as int], selected@)));
                    assert(shown(lines@) =~= head + list@.take(i + 1).map_values(
                        |d: Device| mic_line(d, selected@),
                    ));
                }
                assert(list@.take(list@.len() as int) =~= list@);
            }
        },
    }
    lines
}

fn build_denoiser_menu(onnx_built: bool, model: Option<&str>, onnx_active: bool) -> (r: Vec<
    MenuLine,
>)
    ensures
        shown(r@) == denoiser_menu(
            onnx_built,
            match model {
                Some(name) => Some(name@),
                None => None,
            },
            onnx_active,
        ),
{
    let mut lines: Vec<MenuLine> = Vec::new();
    lines.push(
        MenuLine::Check {
            label: "RNNoise (built-in)".to_owned(),
            checked: !onnx_active,
            command: Command::SelectDenoiser { onnx: false },
        },
    );
    if onnx_built {
        match model {
            Some(name) => {
                let mut label = name.to_owned();
                label.append(" (ONNX)");
                lines.push(
                    MenuLine::Check {
                        label,
                        checked: onnx_active,
                        command: Command::SelectDenoiser { onnx: true },
                    },
                );
            },
            None => {
                lines.push(MenuLine::Note { label: "(no model.onnx found)".to_owned() });
            },
        }
    } else {
        lines.push(MenuLine::Note { label: "(built without --features onnx)".to_owned() });
    }
    assert(shown(lines@) =~= denoiser_menu(
        onnx_built,
        match model {
            Some(name) => Some(name@),
            None => None,
        },
        onnx_active,
    ));
    lines
}

/// The microphone that the settings select among those there are; empty where
/// Windows' default is followed.
pub open spec fn selected_mic(cfg: Config, devices: Option<Seq<Device>>) -> Seq<char> {
    cfg.wanted(
        match devices {
            Some(list) => crate::devices::names_of(list),
            None => Seq::empty(),
        },
    )
}

/// The menu for the current settings.
///
/// `devices` are the microphones there are, `None` where they could not be
/// listed, `model` the file name of the model there is, and `auto_start` what the
/// registry says about starting with Windows.
pub fn build_menu(
    cfg: &Config,
    devices: Option<&Vec<Device>>,
    onnx_built: bool,
    model: Option<&str>,
    onnx_active: bool,
    auto_start: bool,
) -> (r: TrayMenu)
    ensures
        shown(r.lines@) == main_menu(cfg.enabled, auto_start),
        ({
            let list = match devices {
                Some(list) => Some(list@),
                None => None,
            };
            shown(r.microphones@) == mic_menu(list, selected_mic(*cfg, list))
        }),
        shown(r.denoisers@) == denoiser_menu(
            onnx_built,
            match model {
                Some(name) => Some(name@),
                None => None,
            },
            onnx_active,
        ),
{
    let names: Vec<String> = match devices {
        Some(list) => device_names(list),
        None => Vec::new(),
    };
    assert(devices is None ==> crate::text::views(names@) =~= Seq::empty());
    let selected = cfg.wanted_microphone(&names);
    TrayMenu {
        lines: build_main_menu(cfg.enabled, auto_start),
        microphones: build_mic_menu(devices, selected.as_str()),
        denoisers: build_denoiser_menu(onnx_built, model, onnx_active),
    }
}

/// The check marks after a microphone was chosen: those of the entries with its
/// identifier.
pub fn mic_marks(device_ids: &Vec<String>, chosen: &str) -> (r: Vec<bool>)
    ensures
        r@.len() == device_ids@.len(),
        forall|i: int| 0 <= i < r@.len() ==> #[trigger] r@[i] == (device_ids@[i]@ == chosen@),
{
    let mut marks: Vec<bool> = Vec::new();
    for i in 0..device_ids.len()
        invariant
            marks@.len() == i,
            forall|j: int| 0 <= j < i ==> #[trigger] marks@[j] == (device_ids@[j]@ == chosen@),
    {
        marks.push(same_text(device_ids[i].as_str(), chosen));
    }
    marks
}

/// The microphones are radio buttons: where no two entries have the same
/// identifier, choosing one leaves exactly that one checked.
pub proof fn law_exactly_one_microphone_is_checked(ids: Seq<Seq<char>>, chosen: int)
    requires
        0 <= chosen < ids.len(),
        forall|i: int, j: int| 0 <= i < j < ids.len() ==> #[trigger] ids[i] != #[trigger] ids[j],
    ensures
        forall|i: int| 0 <= i < ids.len() ==> (#[trigger] ids[i] == ids[chosen] <==> i == chosen),
{
}

/// The check marks after a denoiser was chosen. `onnx` says of each entry
/// whether it is the model.
pub fn denoiser_marks(onnx: &Vec<bool>, chosen: bool) -> (r: Vec<bool>)
    ensures
        r@.len() == onnx@.len(),
        forall|i: int| 0 <= i < r@.len() ==> #[trigger] r@[i] == (onnx@[i] == chosen),
{
    let mut marks: Vec<bool> = Vec::new();
    for i in 0..onnx.len()
        invariant
            marks@.len() == i,
            forall|j: int| 0 <= j < i ==> #[trigger] marks@[j] == (onnx@[j] == chosen),
    {
        marks.push(onnx[i] == chosen);
    }
    marks
}

/// What happened in the tray.
#[derive(Debug)]
pub enum TrayEvent {
    /// A line of the menu was chosen. `checked` is its mark now, if it has one.
    Chosen { command: Command, checked: bool },
    /// The left button was released over the icon.
    LeftClick,
    /// Anything else: the other button, a press, the pointer passing.
    Other,
}

/// What the tray does about it.
#[derive(Debug)]
pub enum TrayAction {
    SetEnabled(bool),
    SetAutoStart(bool),
    OpenLogs,
    Quit,
    SelectMic { device_id: String, name: String },
    SelectDenoiser { onnx: bool },
    Nothing,
}

/// Decide what an event in the tray does. `enabled` is whether noise is removed
/// now.
///
/// The left click is the on/off switch, on release only, so that pressing and
/// dragging away is no click.
pub fn on_event(event: TrayEvent, enabled: bool) -> (r: TrayAction)
    ensures
        r == (match event {
            TrayEvent::LeftClick => TrayAction::SetEnabled(!enabled),
            TrayEvent::Other => TrayAction::Nothing,
            TrayEvent::Chosen { command, checked } => match command {
                Command::Toggle => TrayAction::SetEnabled(checked),
                Command::AutoStart => TrayAction::SetAutoStart(checked),
                Command::OpenLogs => TrayAction::OpenLogs,
                Command::Quit => TrayAction::Quit,
                Command::SelectMic { device_id, name } => TrayAction::SelectMic {
                    device_id,
                    name,
                },
                Command::SelectDenoiser { onnx } => TrayAction::SelectDenoiser { onnx },
            },
        }),
{
    match event {
        TrayEvent::LeftClick => TrayAction::SetEnabled(!enabled),
        TrayEvent::Other => TrayAction::Nothing,
        TrayEvent::Chosen { command, checked } => match command {
            Command::Toggle => TrayAction::SetEnabled(checked),
            Command::AutoStart => TrayAction::SetAutoStart(checked),
            Command::OpenLogs => TrayAction::OpenLogs,
            Command::Quit => TrayAction::Quit,
            Command::SelectMic { device_id, name } => TrayAction::SelectMic { device_id, name },
            Command::SelectDenoiser { onnx } => TrayAction::SelectDenoiser { onnx },
        },
    }
}

/// Switch noise removal on or off, whichever surface asked. Returns whether the
/// menu's check mark has to be set by hand: a click on the icon did not touch
/// it.
pub fn set_enabled(cfg: &mut Config, check_mark: bool, enabled: bool) -> (sync: bool)
    ensures
        *final(cfg) == (Config { enabled, ..*old(cfg) }),
        sync == (check_mark != enabled),
{
    cfg.enabled = enabled;
    check_mark != enabled
}

/// Take in whether the registry could be changed. Returns what the check mark
/// has to show: what the registry says, not what was wished for.
pub fn auto_start_changed(cfg: &mut Config, wanted: bool, changed: bool) -> (check_mark: bool)
    ensures
        *final(cfg) == (if changed {
            Config { auto_start: wanted, ..*old(cfg) }
        } else {
            *old(cfg)
        }),
        check_mark == (if changed {
            wanted
        } else {
            !wanted
        }),
{
    if changed {
        cfg.auto_start = wanted;
        wanted
    } else {
        !wanted
    }
}

/// What is said when starting with Windows could not be changed.
pub fn auto_start_failure(details: &str) -> (r: String)
    ensures
        r@ == "Could not change start-with-Windows:\n\n"@ + details@,
{
    "Could not change start-with-Windows:\n\n".to_owned().concat(details)
}

/// What is said when the audio could not be started with a device.
pub fn restart_failure(details: &str) -> (r: String)
    ensures
        r@ == "Could not start audio with that device:\n\n"@ + details@,
{
    "Could not start audio with that device:\n\n".to_owned().concat(details)
}

/// What the tooltip shows before the first update. `denoiser` is `None` where
/// no pipeline runs.
pub fn initial_tooltip(denoiser: Option<&str>) -> (r: String)
    ensures
        r@ == (match denoiser {
            Some(name) => "NoiseGate ("@ + name@ + ") — starting"@,
            None => "NoiseGate — stopped"@,
        }),
{
    match denoiser {
        Some(name) => {
            let mut text = "NoiseGate (".to_owned();
            text.append(name);
            text.append(") — starting");
            text
        },
        None => "NoiseGate — stopped".to_owned(),
    }
}

/// What the tooltip has to show.
#[derive(Debug, Clone, Copy, PartialEq, Eq, Structural)]
pub enum TooltipKind {
    /// The running denoiser and what it costs.
    Running,
    /// The stream is dead.
    NoAudio,
    /// No pipeline runs.
    Stopped,
}

/// What the tooltip has to show.
pub fn tooltip_kind(running: bool, stalled: bool) -> (r: TooltipKind)
    ensures
        r == (if !running {
            TooltipKind::Stopped
        } else if stalled {
            TooltipKind::NoAudio
        } else {
            TooltipKind::Running
        }),
{
    if !running {
        TooltipKind::Stopped
    } else if stalled {
        TooltipKind::NoAudio
    } else {
        TooltipKind::Running
    }
}

/// The tooltip. `cpu` is the load in percent and `peak_ms` the longest frame in
/// milliseconds, each with one decimal; they show only while audio runs.
pub fn tooltip(
    kind: TooltipKind,
    denoiser: &str,
    enabled: bool,
    cpu: &str,
    peak_ms: &str,
) -> (r: String)
    ensures
        r@ == (match kind {
            TooltipKind::NoAudio => "NoiseGate — no audio from the microphone"@,
            TooltipKind::Stopped => "NoiseGate — stopped (pick a microphone)"@,
            TooltipKind::Running => "NoiseGate ("@ + denoiser@ + ")\n"@ + (if enabled {
                "ON"@
            } else {
                "BYPASS"@
            }) + "  |  CPU: "@ + cpu@ + "%  peak: "@ + peak_ms@ + "ms"@,
        }),
{
    match kind {
        TooltipKind::NoAudio => "NoiseGate — no audio from the microphone".to_owned(),
        TooltipKind::Stopped => "NoiseGate — stopped (pick a microphone)".to_owned(),
        TooltipKind::Running => {
            let mut text = "NoiseGate (".to_owned();
            text.append(denoiser);
            text.append(")\n");
            if enabled {
                text.append("ON");
            } else {
                text.append("BYPASS");
            }
            text.append("  |  CPU: ");
            text.append(cpu);
            text.append("%  peak: ");
            text.append(peak_ms);
            text.append("ms");
            text
        },
    }
}

/// The least time between two updates of the tooltip.
pub const TOOLTIP_INTERVAL_NS: u64 = 1_000_000_000;

/// Whether the tooltip is due for an update.
pub fn tooltip_is_due(last_update_ns: u64, now_ns: u64) -> (r: bool)
    ensures
        r == (elapsed(now_ns, last_update_ns) >= TOOLTIP_INTERVAL_NS),
{
    elapsed_ns(now_ns, last_update_ns) >= TOOLTIP_INTERVAL_NS
}

/// A stream whose count stands still is found dead by the first look that comes
/// two seconds or more after the count last moved, and by none before that.
pub proof fn law_a_still_count_is_found_dead(before: Health, times: Seq<u64>, now_ns: u64)
    requires
        !before.stalled,
        forall|k: int|
            0 <= k < times.len() ==> before.last_change_ns <= #[trigger] times[k]
                < before.last_change_ns + STALL_AFTER_NS,
        now_ns >= before.last_change_ns,
    ensures
        ({
            let after = watched(
                before,
                Seq::new(times.len(), |k: int| (Some(before.last_frames), times[k])),
            );
            &&& !after.stalled
            &&& after.last_change_ns == before.last_change_ns
            &&& after.last_frames == before.last_frames
            &&& after.last_recovery_ns == before.last_recovery_ns
            &&& looked(after, Some(before.last_frames), now_ns).stalled <==> now_ns
                - before.last_change_ns >= STALL_AFTER_NS
        }),
    decreases times.len(),
{
    let looks: Seq<(Option<u64>, u64)> = Seq::new(
        times.len(),
        |k: int| (Some(before.last_frames), times[k]),
    );
    if times.len() > 0 {
        let fewer = times.drop_last();
        assert forall|k: int| 0 <= k < fewer.len() implies before.last_change_ns
            <= #[trigger] fewer[k] < before.last_change_ns + STALL_AFTER_NS by {
            assert(fewer[k] == times[k]);
        }
        law_a_still_count_is_found_dead(before, fewer, now_ns);
        assert(looks.drop_last() =~= Seq::new(
            fewer.len(),
            |k: int| (Some(before.last_frames), fewer[k]),
        ));
        assert(looks.last() == (Some(before.last_frames), times[times.len() - 1]));
        assert(times[times.len() - 1] < before.last_change_ns + STALL_AFTER_NS);
    }
}

/// Choosing a microphone from the menu checks it: the line that was chosen names
/// a microphone, and the menu that is built once it is preferred marks that line
/// and not the one for Windows' default.
pub proof fn law_choosing_a_microphone_checks_its_line(
    before: Config,
    after: Config,
    list: Seq<Device>,
    selected: Seq<char>,
    i: int,
)
    requires
        0 <= i < list.len(),
        list[i].friendly_name@.len() > 0,
        mic_menu(Some(list), selected)[2 + i] matches LineView::Check { command, .. } && (
        command matches CommandView::SelectMic { name, .. } && after.remembered()
            == crate::config::preferring(before.remembered(), name)),
    ensures
        selected_mic(after, Some(list)) == list[i].friendly_name@,
        mic_menu(Some(list), selected_mic(after, Some(list)))[2 + i] matches LineView::Check {
            checked,
            command,
            ..
        } && checked && (command matches CommandView::SelectMic { device_id, name } && device_id
            == list[i].id@ && name == list[i].friendly_name@),
        mic_menu(Some(list), selected_mic(after, Some(list)))[0] matches LineView::Check {
            checked,
            ..
        } && !checked,
        mic_menu(Some(list), selected).len() == list.len() + 2,
{
    let name = list[i].friendly_name@;
    let lines = mic_menu(Some(list), selected);
    assert(lines[2 + i] == mic_line(list[i], selected));
    let names = crate::devices::names_of(list);
    assert(names[i] == name);
    assert(crate::config::is_there(names, name));
    crate::config::law_a_preferred_microphone_is_used(before, after, name, names);
    let now = mic_menu(Some(list), name);
    assert(now[2 + i] == mic_line(list[i], name));
    assert(now[0] == default_mic_line(name));
}

} // verus!
