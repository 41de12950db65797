//! Where files are.
//!
//! A path is held as the platform encodes it, byte for byte, so one that is not
//! valid Unicode stays what it is. Names of our own are in UTF-8, which every
//! platform's encoding contains.
use vstd::prelude::*;

verus! {

/// How a platform spells paths.
#[derive(Debug, Clone, Copy, PartialEq, Eq, Structural)]
pub enum PathStyle {
    /// Drives and network shares, and both kinds of slash for a separator.
    Windows,
    /// One root, and one separator.
    Unix,
}

/// The style of a platform whose own separator is this one.
pub open spec fn style_of(separator: char) -> PathStyle {
    if separator == '\\' {
        PathStyle::Windows
    } else {
        PathStyle::Unix
    }
}

/// `std::path::MAIN_SEPARATOR`: what stands between the parts of a path on this
/// platform. It depends on the machine, so nothing is promised of it.
#[verifier::external_body]
fn main_separator() -> (r: char)
{
    std::path::MAIN_SEPARATOR
}

/// `style` is that of the platform, by its separator.
pub closed spec fn is_platform(style: PathStyle) -> bool {
    exists|c: char| #[trigger] call_ensures(main_separator, (), c) && style == style_of(c)
}

/// How this platform spells paths.
pub fn platform() -> (r: PathStyle)
    ensures
        is_platform(r),
{
    let c: char = main_separator();
    let style = if c == '\\' {
        PathStyle::Windows
    } else {
        PathStyle::Unix
    };
    assert(style == style_of(c));
    style
}

/// A text as part of a path.
pub open spec fn utf8(text: Seq<char>) -> Seq<u8> {
    vstd::utf8::encode_utf8(text)
}

/// Separates the parts of a path.
pub open spec fn is_separator(style: PathStyle, b: u8) -> bool {
    b == 0x2f || style is Windows && b == 0x5c
}

/// A drive letter and its colon.
pub open spec fn has_drive(path: Seq<u8>) -> bool {
    &&& path.len() >= 2
    &&& (0x41 <= path[0] <= 0x5a || 0x61 <= path[0] <= 0x7a)
    &&& path[1] == 0x3a
}

/// The path starts at a root, of a drive or a network share on Windows, so
/// nothing searches for it.
pub open spec fn absolute(style: PathStyle, path: Seq<u8>) -> bool {
    match style {
        PathStyle::Windows => {
            ||| has_drive(path) && path.len() >= 3 && is_separator(style, path[2])
            ||| path.len() >= 2 && is_separator(style, path[0]) && is_separator(style, path[1])
        },
        PathStyle::Unix => path.len() >= 1 && is_separator(style, path[0]),
    }
}

/// A separator has to stand between `dir` and a name in it: not behind an
/// empty path, another separator, or a bare drive such as `C:`.
pub open spec fn needs_separator(style: PathStyle, dir: Seq<u8>) -> bool {
    &&& dir.len() > 0
    &&& !is_separator(style, dir.last())
    &&& !(style is Windows && dir.len() == 2 && has_drive(dir))
}

/// The platform's own separator.
pub open spec fn separator(style: PathStyle) -> u8 {
    match style {
        PathStyle::Windows => 0x5c,
        PathStyle::Unix => 0x2f,
    }
}

/// The file `name` in the directory `dir`.
pub open spec fn joined_path(style: PathStyle, dir: Seq<u8>, name: Seq<u8>) -> Seq<u8> {
    if needs_separator(style, dir) {
        dir.push(separator(style)) + name
    } else {
        dir + name
    }
}

/// The path of the file `name` in the directory `dir`. `name` is a name, not a
/// path of its own.
pub fn join(style: PathStyle, dir: &Vec<u8>, name: &str) -> (r: Vec<u8>)
    ensures
        r@ == joined_path(style, dir@, utf8(name@)),
{
    let n: usize = dir.len();
    let windows = style == PathStyle::Windows;
    let mut out: Vec<u8> = Vec::with_capacity(n);
    for i in 0..n
        invariant
            n == dir@.len(),
            out@ == dir@.take(i as int),
    {
        out.push(dir[i]);
        assert(out@ =~= dir@.take(i + 1));
    }
    assert(out@ =~= dir@);
    if n > 0 {
        let last: u8 = dir[n - 1];
        let bare_drive = windows && n == 2 && dir[1] == 0x3a && (0x41 <= dir[0] && dir[0] <= 0x5a
            || 0x61 <= dir[0] && dir[0] <= 0x7a);
        if last != 0x2f && !(windows && last == 0x5c) && !bare_drive {
            out.push(
                if windows {
                    0x5c
                } else {
                    0x2f
                },
            );
        }
    }
    let mut tail: Vec<u8> = name.as_bytes_vec();
    out.append(&mut tail);
    assert(out@ =~= joined_path(style, dir@, utf8(name@)));
    out
}

/// A name in a root, on a network share, or in a directory below one, is found
/// there and nowhere else.
pub proof fn law_a_file_in_an_absolute_directory_is_absolute(
    style: PathStyle,
    dir: Seq<u8>,
    name: Seq<u8>,
)
    requires
        absolute(style, dir),
    ensures
        absolute(style, joined_path(style, dir, name)),
        joined_path(style, dir, name).len() > dir.len() || name.len() == 0,
{
    let path = joined_path(style, dir, name);
    assert forall|i: int| 0 <= i < dir.len() implies #[trigger] path[i] == dir[i] by {}
    assert(path[0] == dir[0]);
    if style is Windows {
        assert(path[1] == dir[1]);
        if dir.len() >= 3 {
            assert(path[2] == dir[2]);
        }
    }
}

/// What `dirs::config_dir` reports: the user's directory for settings, if the
/// system knows one, in the platform's own encoding. It depends on the machine
/// and the environment, so nothing is promised of it.
#[verifier::external_body]
fn config_dir() -> (r: Option<Vec<u8>>)
{
    dirs::config_dir().map(|p| p.into_os_string().into_encoded_bytes())
}

/// `settings` is what the system reported as the user's directory for settings.
pub closed spec fn is_reported(settings: Option<Vec<u8>>) -> bool {
    call_ensures(config_dir, (), settings)
}

/// The program's own directory, below the user's settings or, where the system
/// knows no such place, below the current directory.
pub open spec fn base_dir_at(style: PathStyle, settings: Option<Seq<u8>>) -> Seq<u8> {
    match settings {
        Some(dir) => joined_path(style, dir, utf8("NoiseGate"@)),
        None => joined_path(style, utf8("."@), utf8("NoiseGate"@)),
    }
}

/// What a string in an option holds.
pub open spec fn opt_view(s: Option<String>) -> Option<Seq<char>> {
    match s {
        Some(s) => Some(s@),
        None => None,
    }
}

/// What a path in an option holds.
pub open spec fn opt_path(p: Option<Vec<u8>>) -> Option<Seq<u8>> {
    match p {
        Some(p) => Some(p@),
        None => None,
    }
}

/// The program's own directory, given the user's directory for settings.
pub fn base_dir_in(style: PathStyle, settings: &Option<Vec<u8>>) -> (r: Vec<u8>)
    ensures
        r@ == base_dir_at(style, opt_path(*settings)),
{
    match settings {
        Some(dir) => join(style, dir, "NoiseGate"),
        None => join(style, &".".as_bytes_vec(), "NoiseGate"),
    }
}

/// The configuration file, given the user's directory for settings.
pub fn config_path_in(style: PathStyle, settings: &Option<Vec<u8>>) -> (r: Vec<u8>)
    ensures
        r@ == joined_path(style, base_dir_at(style, opt_path(*settings)), utf8("config.toml"@)),
{
    join(style, &base_dir_in(style, settings), "config.toml")
}

/// The directory of the logs, given the user's directory for settings.
pub fn log_dir_in(style: PathStyle, settings: &Option<Vec<u8>>) -> (r: Vec<u8>)
    ensures
        r@ == joined_path(style, base_dir_at(style, opt_path(*settings)), utf8("logs"@)),
{
    join(style, &base_dir_in(style, settings), "logs")
}

/// The configuration file, below the directory that the system reports and as
/// the platform spells it. Which directory that is depends on the machine.
pub fn config_path() -> (r: Vec<u8>)
    ensures
        exists|style: PathStyle, settings: Option<Vec<u8>>| #[trigger]
            is_platform(style) && #[trigger] is_reported(settings) && r@ == joined_path(
                style,
                base_dir_at(style, opt_path(settings)),
                utf8("config.toml"@),
            ),
{
    let settings = config_dir();
    assert(is_reported(settings));
    config_path_in(platform(), &settings)
}

/// The directory of the logs, below the directory that the system reports and
/// as the platform spells it. Which directory that is depends on the machine.
pub fn log_dir() -> (r: Vec<u8>)
    ensures
        exists|style: PathStyle, settings: Option<Vec<u8>>| #[trigger]
            is_platform(style) && #[trigger] is_reported(settings) && r@ == joined_path(
                style,
                base_dir_at(style, opt_path(settings)),
                utf8("logs"@),
            ),
{
    let settings = config_dir();
    assert(is_reported(settings));
    log_dir_in(platform(), &settings)
}

/// The log file in the directory of the logs.
pub fn log_file(style: PathStyle, dir: &Vec<u8>) -> (r: Vec<u8>)
    ensures
        r@ == joined_path(style, dir@, utf8("noisegate.log"@)),
{
    join(style, dir, "noisegate.log")
}

/// A log this long is rolled over before more is appended to it.
pub const MAX_LOG_BYTES: u64 = 5_242_880;

/// Whether a log has to be rolled over. `size` is its length, `None` where
/// there is none or it cannot be read.
pub fn log_is_too_large(size: Option<u64>, max_bytes: u64) -> (r: bool)
    ensures
        r == (size matches Some(n) && n > max_bytes),
{
    match size {
        Some(n) => n > max_bytes,
        None => false,
    }
}

/// The directory that Windows is in, by what the environment says.
pub open spec fn system_root_at(system_root: Option<Seq<u8>>) -> Seq<u8> {
    match system_root {
        Some(dir) => dir,
        None => utf8("C:\\Windows"@),
    }
}

/// Where Explorer is, which only Windows has. It is named by its full path: a
/// bare name would be looked up in the search path, where any writable
/// directory could supply the program.
pub fn explorer_path(system_root: &Option<Vec<u8>>) -> (r: Vec<u8>)
    ensures
        r@ == joined_path(
            PathStyle::Windows,
            system_root_at(opt_path(*system_root)),
            utf8("explorer.exe"@),
        ),
        (system_root matches Some(dir) ==> absolute(PathStyle::Windows, dir@)) ==> absolute(
            PathStyle::Windows,
            r@,
        ),
{
    proof {
        reveal_strlit("C:\\Windows");
        assert(vstd::utf8::is_ascii_chars("C:\\Windows"@));
        vstd::utf8::is_ascii_chars_encode_utf8("C:\\Windows"@);
        let fallback = utf8("C:\\Windows"@);
        assert(fallback[0] == 0x43 && fallback[1] == 0x3a && fallback[2] == 0x5c);
        let dir = system_root_at(opt_path(*system_root));
        if absolute(PathStyle::Windows, dir) {
            law_a_file_in_an_absolute_directory_is_absolute(
                PathStyle::Windows,
                dir,
                utf8("explorer.exe"@),
            );
        }
    }
    match system_root {
        Some(dir) => join(PathStyle::Windows, dir, "explorer.exe"),
        None => join(PathStyle::Windows, &"C:\\Windows".as_bytes_vec(), "explorer.exe"),
    }
}

/// Where the ONNX Runtime is to be loaded from, or `None` to leave the choice
/// alone.
///
/// An operator's own choice stands. Else it is the library beside our own
/// executable, by its full path; where that place is unknown nothing is
/// chosen, because a bare name would be searched for.
pub fn dylib_path_to_pin(style: PathStyle, already_set: bool, exe_dir: Option<&Vec<u8>>) -> (r:
    Option<Vec<u8>>)
    ensures
        r is Some <==> !already_set && exe_dir is Some,
        r matches Some(path) ==> path@ == joined_path(style, exe_dir->0@, utf8("onnxruntime.dll"@)),
        r matches Some(path) ==> absolute(style, exe_dir->0@) ==> absolute(style, path@),
{
    if already_set {
        return None;
    }
    match exe_dir {
        Some(dir) => {
            proof {
                if absolute(style, dir@) {
                    law_a_file_in_an_absolute_directory_is_absolute(
                        style,
                        dir@,
                        utf8("onnxruntime.dll"@),
                    );
                }
            }
            Some(join(style, dir, "onnxruntime.dll"))
        },
        None => None,
    }
}

} // verus!
