//! The command line.
use vstd::prelude::*;

use crate::text::{same_text, starts_with};

verus! {

/// What `--help` prints.
pub const HELP: &'static str = "NoiseGate — real-time mic noise cancellation\n\nUSAGE:\nnoisegate.exe [OPTIONS]\n\nOPTIONS:\n--list-devices         Print all input/output devices and exit.\n--mic <SUBSTRING>      Pick the input device whose friendly name contains\nSUBSTRING (case-insensitive). Useful when your\ndefault mic is a Bluetooth headset and you want\na USB mic instead.\n-h, --help             Show this help.\n\nCONFIG FILE:\n%APPDATA%\\NoiseGate\\config.toml — `input_device_id` / `output_device_id`\ncan be set there for a permanent choice.\n";

/// What the command line asks for.
#[derive(Debug)]
pub struct CliArgs {
    pub help: bool,
    pub list_devices: bool,
    /// `--mic <SUBSTRING>`
    pub mic: Option<String>,
    /// `--record <SECONDS> <FILE.wav>`, the seconds as they were typed.
    pub record: Option<(String, String)>,
    /// `--denoise <IN.wav> <OUT.wav>`
    pub denoise: Option<(String, String)>,
    /// `--model <FILE>`
    pub model: Option<String>,
    /// `--atten <DB>`, as it was typed.
    pub atten: Option<String>,
}

/// The same, as text.
pub struct CliView {
    pub help: bool,
    pub list_devices: bool,
    pub mic: Option<Seq<char>>,
    pub record: Option<(Seq<char>, Seq<char>)>,
    pub denoise: Option<(Seq<char>, Seq<char>)>,
    pub model: Option<Seq<char>>,
    pub atten: Option<Seq<char>>,
}

/// What a pair of strings in an option holds.
pub open spec fn pair_view(s: Option<(String, String)>) -> Option<(Seq<char>, Seq<char>)> {
    match s {
        Some((a, b)) => Some((a@, b@)),
        None => None,
    }
}

impl View for CliArgs {
    type V = CliView;

    open spec fn view(&self) -> CliView {
        CliView {
            help: self.help,
            list_devices: self.list_devices,
            mic: crate::paths::opt_view(self.mic),
            record: pair_view(self.record),
            denoise: pair_view(self.denoise),
            model: crate::paths::opt_view(self.model),
            atten: crate::paths::opt_view(self.atten),
        }
    }
}

/// Nothing asked for.
pub open spec fn no_args() -> CliView {
    CliView {
        help: false,
        list_devices: false,
        mic: None,
        record: None,
        denoise: None,
        model: None,
        atten: None,
    }
}

/// The argument at `i`, if there is one.
pub open spec fn arg_at(args: Seq<Seq<char>>, i: int) -> Option<Seq<char>> {
    if 0 <= i < args.len() {
        Some(args[i])
    } else {
        None
    }
}

/// The arguments at `i` and behind it, if there are two.
pub open spec fn args_at(args: Seq<Seq<char>>, i: int) -> Option<(Seq<char>, Seq<char>)> {
    if 0 <= i && i + 1 < args.len() {
        Some((args[i], args[i + 1]))
    } else {
        None
    }
}

/// `--mic=` and what follows it.
pub open spec fn is_joined_mic(arg: Seq<char>) -> bool {
    "--mic="@.is_prefix_of(arg)
}

/// Read the argument at `i`, `acc` being what those before asked for: how many
/// arguments it takes, itself included, and what is asked for then.
///
/// An option takes what follows it, whatever that is; one that is cut short at
/// the end asks for nothing, and takes back what an earlier one asked for where
/// it has a single value. What is not known is skipped.
pub open spec fn read_one(args: Seq<Seq<char>>, i: int, acc: CliView) -> (int, CliView) {
    let a = args[i];
    if a == "-h"@ || a == "--help"@ {
        (1, CliView { help: true, ..acc })
    } else if a == "--list-devices"@ {
        (1, CliView { list_devices: true, ..acc })
    } else if a == "--mic"@ {
        (2, CliView { mic: arg_at(args, i + 1), ..acc })
    } else if is_joined_mic(a) {
        (1, CliView { mic: Some(a.skip("--mic="@.len() as int)), ..acc })
    } else if a == "--model"@ {
        (2, CliView { model: arg_at(args, i + 1), ..acc })
    } else if a == "--atten"@ {
        (2, CliView { atten: arg_at(args, i + 1), ..acc })
    } else if a == "--record"@ {
        (
            3,
            match args_at(args, i + 1) {
                Some(pair) => CliView { record: Some(pair), ..acc },
                None => acc,
            },
        )
    } else if a == "--denoise"@ {
        (
            3,
            match args_at(args, i + 1) {
                Some(pair) => CliView { denoise: Some(pair), ..acc },
                None => acc,
            },
        )
    } else {
        (1, acc)
    }
}

/// Read the arguments from `i` on, `acc` being what those before asked for. The
/// last of several wins.
pub open spec fn parsed(args: Seq<Seq<char>>, i: int, acc: CliView) -> CliView
    decreases
            (if i < args.len() {
                args.len() - i
            } else {
                0
            }),
{
    if i < 0 || i >= args.len() {
        acc
    } else {
        let (taken, next) = read_one(args, i, acc);
        parsed(args, i + taken, next)
    }
}

/// The argument at `i`, if there is one.
fn value_at(args: &Vec<String>, i: usize) -> (r: Option<String>)
    ensures
        crate::paths::opt_view(r) == arg_at(crate::text::views(args@), i as int),
{
    if i < args.len() {
        Some(args[i].clone())
    } else {
        None
    }
}

/// The arguments at `i` and behind it, if there are two.
fn pair_at(args: &Vec<String>, i: usize) -> (r: Option<(String, String)>)
    ensures
        pair_view(r) == args_at(crate::text::views(args@), i as int),
{
    let length: usize = args.len();
    if i < length && length - i > 1 {
        Some((args[i].clone(), args[i + 1].clone()))
    } else {
        None
    }
}

/// What follows `--mic=`.
fn after_mic(arg: &str) -> (r: String)
    requires
        is_joined_mic(arg@),
    ensures
        r@ == arg@.skip("--mic="@.len() as int),
{
    proof {
        reveal_strlit("--mic=");
    }
    let chars = crate::text::chars_of(arg);
    let mut out = String::new();
    for i in 6..chars.len()
        invariant
            chars@ == arg@,
            chars@.len() >= 6,
            out@ == chars@.subrange(6, i as int),
    {
        out.push(chars[i]);
        assert(out@ =~= chars@.subrange(6, i + 1));
    }
    assert(out@ =~= arg@.skip(6));
    out
}

/// Read the command line, without the program's own name.
pub fn parse_args_from(args: &Vec<String>) -> (r: CliArgs)
    ensures
        r@ == parsed(crate::text::views(args@), 0, no_args()),
{
    let mut out = CliArgs {
        help: false,
        list_devices: false,
        mic: None,
        record: None,
        denoise: None,
        model: None,
        atten: None,
    };
    let n: usize = args.len();
    let mut i: usize = 0;
    let ghost all = crate::text::views(args@);
    while i < n
        invariant
            n == args@.len(),
            all == crate::text::views(args@),
            parsed(all, 0, no_args()) == parsed(all, i as int, out@),
        decreases n - i,
    {
        let a = args[i].as_str();
        let left: usize = n - i;
        assert(all[i as int] == a@);
        proof {
            reveal_with_fuel(parsed, 2);
        }
        if same_text(a, "-h") || same_text(a, "--help") {
            out.help = true;
            i = i + 1;
        } else if same_text(a, "--list-devices") {
            out.list_devices = true;
            i = i + 1;
        } else if same_text(a, "--mic") {
            out.mic = value_at(args, i + 1);
            i = if left > 2 {
                i + 2
            } else {
                n
            };
        } else if starts_with(a, "--mic=") {
            out.mic = Some(after_mic(a));
            i = i + 1;
        } else if same_text(a, "--model") {
            out.model = value_at(args, i + 1);
            i = if left > 2 {
                i + 2
            } else {
                n
            };
        } else if same_text(a, "--atten") {
            out.atten = value_at(args, i + 1);
            i = if left > 2 {
                i + 2
            } else {
                n
            };
        } else if same_text(a, "--record") {
            if let Some(pair) = pair_at(args, i + 1) {
                out.record = Some(pair);
            }
            i = if left > 3 {
                i + 3
            } else {
                n
            };
        } else if same_text(a, "--denoise") {
            if let Some(pair) = pair_at(args, i + 1) {
                out.denoise = Some(pair);
            }
            i = if left > 3 {
                i + 3
            } else {
                n
            };
        } else {
            i = i + 1;
        }
    }
    out
}

/// What is read depends only on the arguments that are left.
proof fn lemma_parsed_from_here(a: Seq<Seq<char>>, i: int, b: Seq<Seq<char>>, j: int, acc: CliView)
    requires
        0 <= i,
        0 <= j,
        a.len() - i == b.len() - j,
        forall|k: int| i <= k < a.len() ==> #[trigger] a[k] == b[k - i + j],
    ensures
        parsed(a, i, acc) == parsed(b, j, acc),
    decreases
            (if i < a.len() {
                a.len() - i
            } else {
                0
            }),
{
    if i < a.len() {
        assert(a[i] == b[j]);
        if i + 1 < a.len() {
            assert(a[i + 1] == b[j + 1]);
        }
        if i + 2 < a.len() {
            assert(a[i + 2] == b[j + 2]);
        }
        let (taken, next) = read_one(a, i, acc);
        assert(read_one(b, j, acc) == (taken, next));
        lemma_parsed_from_here(a, i + taken, b, j + taken, next);
    }
}

/// `--mic X` and `--mic=X` ask for the same, whatever stands before and behind
/// them.
pub proof fn law_mic_can_be_spelled_both_ways(name: Seq<char>, rest: Seq<Seq<char>>, acc: CliView)
    ensures
        parsed(seq!["--mic"@, name] + rest, 0, acc) == parsed(
            seq!["--mic="@ + name] + rest,
            0,
            acc,
        ),
        parsed(seq!["--mic"@, name] + rest, 0, acc) == parsed(
            rest,
            0,
            CliView { mic: Some(name), ..acc },
        ),
{
    reveal_strlit("-h");
    reveal_strlit("--help");
    reveal_strlit("--list-devices");
    reveal_strlit("--mic");
    reveal_strlit("--mic=");
    let split = seq!["--mic"@, name] + rest;
    let whole = "--mic="@ + name;
    let joined = seq![whole] + rest;
    let chosen = CliView { mic: Some(name), ..acc };
    assert("--mic"@[2] != "--help"@[2]);
    assert("--mic"@[2] != "--list-devices"@[2]);
    assert(split[0] == "--mic"@);
    assert(split[1] == name);
    lemma_parsed_from_here(split, 2, rest, 0, chosen);
    assert(joined[0] == whole);
    assert(whole[1] == '-');
    assert(whole[2] == 'm');
    assert(whole.len() >= 6);
    assert("--mic="@.is_prefix_of(whole));
    assert(whole.skip(6) =~= name);
    lemma_parsed_from_here(joined, 1, rest, 0, chosen);
}

/// The argument is one that is known.
pub open spec fn is_option(a: Seq<char>) -> bool {
    ||| a == "-h"@
    ||| a == "--help"@
    ||| a == "--list-devices"@
    ||| a == "--mic"@
    ||| is_joined_mic(a)
    ||| a == "--model"@
    ||| a == "--atten"@
    ||| a == "--record"@
    ||| a == "--denoise"@
}

/// What is not known changes nothing, and is not taken for a value either.
pub proof fn law_unknown_flags_are_ignored(args: Seq<Seq<char>>, i: int, acc: CliView)
    requires
        0 <= i < args.len(),
        !is_option(args[i]),
    ensures
        parsed(args, i, acc) == parsed(args, i + 1, acc),
{
}

/// What to run.
#[derive(Debug)]
pub enum Mode {
    Help,
    ListDevices,
    Denoise { input: String, output: String },
    Record { seconds: String, path: String },
    Tray,
}

impl CliArgs {
    /// What to run. `seconds_read` says whether the time to record, if there
    /// is one, could be read as a number; one that could not asks for nothing.
    pub fn mode(&self, seconds_read: bool) -> (r: Mode)
        ensures
            self.help ==> r is Help,
            !self.help && self.list_devices ==> r is ListDevices,
            !self.help && !self.list_devices ==> match (self@.denoise, self@.record) {
                (Some((i, o)), _) => r matches Mode::Denoise { input, output } && input@ == i
                    && output@ == o,
                (None, Some((s, p))) => if seconds_read {
                    r matches Mode::Record { seconds, path } && seconds@ == s && path@ == p
                } else {
                    r is Tray
                },
                (None, None) => r is Tray,
            },
    {
        if self.help {
            return Mode::Help;
        }
        if self.list_devices {
            return Mode::ListDevices;
        }
        if let Some((input, output)) = &self.denoise {
            return Mode::Denoise { input: input.clone(), output: output.clone() };
        }
        if let Some((seconds, path)) = &self.record {
            if seconds_read {
                return Mode::Record { seconds: seconds.clone(), path: path.clone() };
            }
        }
        Mode::Tray
    }
}

/// Every option asks for its own, whatever stands behind it: the flags by
/// themselves, `--model` and `--atten` with the next argument, `--record` and
/// `--denoise` with the next two in the order they were typed.
pub proof fn law_each_option_asks_for_its_own(
    a: Seq<char>,
    b: Seq<char>,
    rest: Seq<Seq<char>>,
    acc: CliView,
)
    ensures
        parsed(seq!["-h"@] + rest, 0, acc) == parsed(rest, 0, CliView { help: true, ..acc }),
        parsed(seq!["--help"@] + rest, 0, acc) == parsed(rest, 0, CliView { help: true, ..acc }),
        parsed(seq!["--list-devices"@] + rest, 0, acc) == parsed(
            rest,
            0,
            CliView { list_devices: true, ..acc },
        ),
        parsed(seq!["--model"@, a] + rest, 0, acc) == parsed(
            rest,
            0,
            CliView { model: Some(a), ..acc },
        ),
        parsed(seq!["--atten"@, a] + rest, 0, acc) == parsed(
            rest,
            0,
            CliView { atten: Some(a), ..acc },
        ),
        parsed(seq!["--record"@, a, b] + rest, 0, acc) == parsed(
            rest,
            0,
            CliView { record: Some((a, b)), ..acc },
        ),
        parsed(seq!["--denoise"@, a, b] + rest, 0, acc) == parsed(
            rest,
            0,
            CliView { denoise: Some((a, b)), ..acc },
        ),
        parsed(Seq::empty(), 0, acc) == acc,
{
    lemma_options_differ();
    let one = seq!["-h"@] + rest;
    assert(one[0] == "-h"@);
    lemma_parsed_from_here(one, 1, rest, 0, CliView { help: true, ..acc });
    let two = seq!["--help"@] + rest;
    assert(two[0] == "--help"@);
    lemma_parsed_from_here(two, 1, rest, 0, CliView { help: true, ..acc });
    let three = seq!["--list-devices"@] + rest;
    assert(three[0] == "--list-devices"@);
    lemma_parsed_from_here(three, 1, rest, 0, CliView { list_devices: true, ..acc });
    let four = seq!["--model"@, a] + rest;
    assert(four[0] == "--model"@ && four[1] == a);
    lemma_parsed_from_here(four, 2, rest, 0, CliView { model: Some(a), ..acc });
    let five = seq!["--atten"@, a] + rest;
    assert(five[0] == "--atten"@ && five[1] == a);
    lemma_parsed_from_here(five, 2, rest, 0, CliView { atten: Some(a), ..acc });
    let six = seq!["--record"@, a, b] + rest;
    assert(six[0] == "--record"@ && six[1] == a && six[2] == b);
    lemma_parsed_from_here(six, 3, rest, 0, CliView { record: Some((a, b)), ..acc });
    let seven = seq!["--denoise"@, a, b] + rest;
    assert(seven[0] == "--denoise"@ && seven[1] == a && seven[2] == b);
    lemma_parsed_from_here(seven, 3, rest, 0, CliView { denoise: Some((a, b)), ..acc });
}

proof fn lemma_options_differ()
    ensures
        "--help"@ != "-h"@,
        "--list-devices"@ != "-h"@ && "--list-devices"@ != "--help"@,
        "--model"@ != "-h"@ && "--model"@ != "--help"@ && "--model"@ != "--list-devices"@,
        "--model"@ != "--mic"@ && !is_joined_mic("--model"@),
        "--atten"@ != "-h"@ && "--atten"@ != "--help"@ && "--atten"@ != "--list-devices"@,
        "--atten"@ != "--mic"@ && !is_joined_mic("--atten"@),
        "--record"@ != "-h"@ && "--record"@ != "--help"@ && "--record"@ != "--list-devices"@,
        "--record"@ != "--mic"@ && !is_joined_mic("--record"@),
        "--denoise"@ != "-h"@ && "--denoise"@ != "--help"@ && "--denoise"@ != "--list-devices"@,
        "--denoise"@ != "--mic"@ && !is_joined_mic("--denoise"@),
        "--atten"@ != "--model"@,
        "--record"@ != "--model"@ && "--record"@ != "--atten"@,
        "--denoise"@ != "--model"@ && "--denoise"@ != "--atten"@ && "--denoise"@ != "--record"@,
{
    reveal_strlit("-h");
    reveal_strlit("--help");
    reveal_strlit("--list-devices");
    reveal_strlit("--mic");
    reveal_strlit("--mic=");
    reveal_strlit("--model");
    reveal_strlit("--atten");
    reveal_strlit("--record");
    reveal_strlit("--denoise");
    assert("-h"@[1] == 'h');
    assert("--help"@[1] == '-' && "--help"@[2] == 'h');
    assert("--list-devices"@[1] == '-' && "--list-devices"@[2] == 'l');
    assert("--mic"@[2] == 'm' && "--mic"@[3] == 'i');
    assert("--mic="@[2] == 'm' && "--mic="@[3] == 'i');
    assert("--model"@[1] == '-' && "--model"@[2] == 'm' && "--model"@[3] == 'o');
    assert("--atten"@[1] == '-' && "--atten"@[2] == 'a' && "--atten"@[3] == 't');
    assert("--record"@[1] == '-' && "--record"@[2] == 'r' && "--record"@[3] == 'e');
    assert("--denoise"@[1] == '-' && "--denoise"@[2] == 'd' && "--denoise"@[3] == 'e');
}

} // verus!
