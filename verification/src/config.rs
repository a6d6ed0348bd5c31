//! Configuration rules: profile names, stored-file naming, hex colors, the
//! capture and editor sections of the config file, command-line override
//! rules and the clamps applied before settings reach the runtime.

use std::path::PathBuf;
use vstd::prelude::*;
use crate::dsp::{spec_check_shape, MAX_RATE};
use crate::keys::{parse_key, key_to_name, spec_parse_key, spec_key_name, law_key_name_round_trips, ToggleKey};
use crate::text::{chars_of, trim_chars, string_from_chars, spec_trim};

verus! {

/// Whether `c` is alphabetic or numeric in Unicode (`char::is_alphanumeric`).
pub uninterp spec fn spec_is_alphanumeric(c: char) -> bool;

/// `char::is_alphanumeric`: true for characters with the Unicode `Alphabetic`
/// or `Numeric` property. Among ASCII characters those are exactly the
/// letters and digits, which the contract states; beyond ASCII the result is
/// only named.
#[verifier::external_body]
pub(crate) fn is_alphanumeric(c: char) -> (r: bool)
    ensures
        r == spec_is_alphanumeric(c),
        (c as u32) < 128 ==> (r <==> (('a' <= c && c <= 'z') || ('A' <= c && c <= 'Z') || ('0' <= c && c <= '9'))),
{
    c.is_alphanumeric()
}

/// Whether `c` is alphanumeric: among ASCII characters exactly the letters
/// and digits; beyond ASCII, what `char::is_alphanumeric` says.
pub open spec fn spec_alnum(c: char) -> bool {
    if (c as u32) < 128 {
        ('a' <= c && c <= 'z') || ('A' <= c && c <= 'Z') || ('0' <= c && c <= '9')
    } else {
        spec_is_alphanumeric(c)
    }
}

/// Characters a profile name may keep: alphanumerics, space, `-` and `_`.
pub open spec fn spec_profile_char(c: char) -> bool {
    spec_alnum(c) || c == ' ' || c == '-' || c == '_'
}

/// A profile name reduced to a safe file stem: trimmed, then only the
/// allowed characters kept, in order.
pub open spec fn spec_sanitize(name: Seq<char>) -> Seq<char> {
    spec_trim(name).filter(|c: char| spec_profile_char(c))
}

/// A character that is safe in a file stem: among ASCII only letters,
/// digits, space, `-` and `_` (so no separator, dot or colon).
pub open spec fn spec_safe_char(c: char) -> bool {
    (c as u32) < 128 ==> (('a' <= c && c <= 'z') || ('A' <= c && c <= 'Z') || ('0' <= c && c <= '9')
        || c == ' ' || c == '-' || c == '_')
}

/// Reduce a user-supplied profile name to a safe single-segment file stem:
/// trims white space and keeps only alphanumerics, space, `-` and `_`. The
/// result can never leave the profiles directory: no path separator, dot,
/// colon or other ASCII punctuation survives.
pub fn sanitize_profile_name(name: &str) -> (r: String)
    ensures
        r@ == spec_sanitize(name@),
        forall|i: int| 0 <= i < r@.len() ==> spec_safe_char(#[trigger] r@[i]),
{
    let chars = chars_of(name);
    let t = trim_chars(&chars);
    let mut out: Vec<char> = Vec::new();
    let n = t.len();
    let mut i: usize = 0;
    while i < n
        invariant
            n == t@.len(),
            0 <= i <= n,
            out@ == t@.subrange(0, i as int).filter(|c: char| spec_profile_char(c)),
            forall|k: int| 0 <= k < out@.len() ==> spec_safe_char(#[trigger] out@[k]),
        decreases n - i,
    {
        let c = t[i];
        let keep = is_alphanumeric(c) || c == ' ' || c == '-' || c == '_';
        proof {
            let f = |c: char| spec_profile_char(c);
            assert(t@.subrange(0, (i + 1) as int).drop_last() =~= t@.subrange(0, i as int));
            reveal_with_fuel(Seq::<_>::filter, 1);
            assert(t@.subrange(0, (i + 1) as int).last() == c);
        }
        if keep {
            out.push(c);
        }
        i = i + 1;
    }
    assert(t@.subrange(0, n as int) =~= t@);
    string_from_chars(&out)
}


/// Upper bound on bars per channel accepted from the command line or a
/// hand-edited config, so an absurd value cannot exhaust memory at startup.
pub const MAX_BARS_PER_CHANNEL: usize = 1024;

/// `profile` stems a stored profile file is named by: the sanitized name plus
/// `.toml`.
pub open spec fn spec_profile_file(name: Seq<char>) -> Option<Seq<char>> {
    let stem = spec_sanitize(name);
    if stem.len() == 0 { None } else { Some(stem + ".toml"@) }
}

/// File name of a named profile inside the profiles directory: the sanitized
/// stem plus `.toml`, or `None` when nothing of the name survives sanitizing
/// (so no name can escape the directory).
pub fn profile_file_name(name: &str) -> (r: Option<String>)
    ensures
        opt_view(&r) == spec_profile_file(name@),
{
    let mut stem = sanitize_profile_name(name);
    if stem.as_str().is_empty() {
        return None;
    }
    stem.append(".toml");
    Some(stem)
}

/// View of an optional string.
pub open spec fn opt_view(o: &Option<String>) -> Option<Seq<char>> {
    match o {
        Some(s) => Some(s@),
        None => None,
    }
}

/// Declares `std::path::PathBuf`, an owned filesystem path, so paths can be
/// held and handed on; its contents are not inspected by verified code.
#[verifier::external_type_specification]
#[verifier::external_body]
pub struct ExPathBuf(PathBuf);

/// `dirs::config_dir`: the platform's per-user configuration directory, when
/// one can be determined. The answer depends on the environment, so nothing
/// is stated about it.
#[verifier::external_body]
fn platform_config_dir() -> (r: Option<PathBuf>) {
    dirs::config_dir()
}

/// The path `Path::join` makes of `base` and `segment`.
pub uninterp spec fn spec_join(base: PathBuf, segment: Seq<char>) -> PathBuf;

/// `Path::join`: `base` with `segment` appended as a further component (or
/// `segment` itself when it is absolute). The result depends on the two
/// arguments alone and is named, not stated; the separator it uses differs
/// between platforms.
#[verifier::external_body]
fn join_path(base: &PathBuf, segment: &str) -> (r: PathBuf)
    ensures
        r == spec_join(*base, segment@),
{
    base.join(segment)
}

/// The per-user configuration root (`~/.config` on Linux), if the platform
/// reports one. Whether it does depends on the environment.
pub fn config_dir() -> (r: Option<PathBuf>) {
    platform_config_dir()
}

/// The path of `file` in the app's directory `bava` under `dir`.
pub open spec fn spec_bava_file(dir: PathBuf, file: Seq<char>) -> PathBuf {
    spec_join(spec_join(dir, "bava"@), file)
}

/// `file` inside the app's directory `bava` under the configuration root
/// `dir`, when there is one.
pub fn bava_file_under(dir: Option<PathBuf>, file: &str) -> (r: Option<PathBuf>)
    ensures
        r is Some <==> dir is Some,
        dir matches Some(d) ==> r == Some(spec_bava_file(d, file@)),
{
    match dir {
        Some(d) => Some(join_path(&join_path(&d, "bava"), file)),
        None => None,
    }
}

/// Default config path: `<config dir>/bava/config.toml`, when a config
/// directory exists.
pub fn default_path() -> (r: Option<PathBuf>)
    ensures
        r matches Some(p) ==> exists|d: PathBuf| p == #[trigger] spec_bava_file(d, "config.toml"@),
{
    let dir = config_dir();
    let ghost g = dir;
    let r = bava_file_under(dir, "config.toml");
    proof {
        if g is Some {
            assert(r == Some(spec_bava_file(g->Some_0, "config.toml"@)));
        }
    }
    r
}

/// Directory holding named profiles: `<config dir>/bava/profiles`.
pub fn profiles_dir() -> (r: Option<PathBuf>)
    ensures
        r matches Some(p) ==> exists|d: PathBuf| p == #[trigger] spec_bava_file(d, "profiles"@),
{
    let dir = config_dir();
    let ghost g = dir;
    let r = bava_file_under(dir, "profiles");
    proof {
        if g is Some {
            assert(r == Some(spec_bava_file(g->Some_0, "profiles"@)));
        }
    }
    r
}

/// Path of a named profile file inside the profiles directory `dir`: `None`
/// when there is no such directory or the name sanitizes to nothing.
pub fn profile_path_in(dir: Option<PathBuf>, name: &str) -> (r: Option<PathBuf>)
    ensures
        r is Some <==> (dir is Some && spec_profile_file(name@) is Some),
        r matches Some(p) ==> p == spec_join(dir->Some_0, spec_profile_file(name@)->Some_0),
{
    let file = match profile_file_name(name) {
        Some(f) => f,
        None => return None,
    };
    match dir {
        Some(d) => Some(join_path(&d, file.as_str())),
        None => None,
    }
}

/// Path of a named profile file, or `None` when the name sanitizes to nothing
/// or there is no config directory.
pub fn profile_path(name: &str) -> (r: Option<PathBuf>)
    ensures
        spec_profile_file(name@) is None ==> r is None,
        r matches Some(p) ==> exists|d: PathBuf|
            p == spec_join(#[trigger] spec_bava_file(d, "profiles"@), spec_profile_file(name@)->Some_0),
{
    let dir = profiles_dir();
    profile_path_in(dir, name)
}

/// `[gui]`: settings-editor preferences.
#[derive(Clone, Debug)]
pub struct GuiConfig {
    /// Name of the key that toggles the settings editor: a letter, a digit,
    /// `f1`..`f12` or a named key. Unknown names fall back to `p`.
    pub toggle_key: String,
}

impl Default for GuiConfig {
    fn default() -> (r: Self)
        ensures
            r.toggle_key@ == seq!['p'],
    {
        let k = String::from_str("p");
        proof {
            reveal_strlit("p");
        }
        GuiConfig { toggle_key: k }
    }
}

/// The key a stored toggle-key name selects: the parsed key, or `p` when the
/// name is unknown.
pub open spec fn spec_toggle_key_of(name: Seq<char>) -> ToggleKey {
    match spec_parse_key(name) {
        Some(k) => k,
        None => ToggleKey::KeyP,
    }
}

impl GuiConfig {
    /// The editor toggle key, parsed from `toggle_key` (the default `p` when
    /// the name is unknown).
    pub fn gui_toggle_key(&self) -> (r: ToggleKey)
        ensures
            r == spec_toggle_key_of(self.toggle_key@),
    {
        match parse_key(self.toggle_key.as_str()) {
            Some(k) => k,
            None => ToggleKey::KeyP,
        }
    }

    /// Store `key` back as its canonical name, so saving keeps the live hotkey.
    pub fn set_gui_toggle_key(&mut self, key: ToggleKey)
        ensures
            final(self).toggle_key@ == spec_key_name(key),
    {
        self.toggle_key = key_to_name(key);
    }
}

/// A stored hotkey reads back as the same key: the name `set_gui_toggle_key`
/// writes selects that key again.
pub proof fn law_toggle_key_round_trips(key: ToggleKey)
    ensures
        spec_toggle_key_of(spec_key_name(key)) == key,
{
    law_key_name_round_trips(key);
}

/// `[audio]`: capture parameters.
#[derive(Clone, Debug)]
pub struct AudioConfig {
    /// Capture source; when unset the default sink's monitor is recorded.
    pub source: Option<String>,
    /// With no pinned source, follow whichever sink is actively playing.
    pub follow_active_sink: bool,
    /// Capture sample rate (Hz).
    pub rate: u32,
    /// Channels to capture (1 or 2).
    pub channels: usize,
    /// Samples per channel read per analysis execution.
    pub frame_samples: usize,
}

impl Default for AudioConfig {
    fn default() -> (r: Self)
        ensures
            r.source is None,
            r.follow_active_sink,
            r.rate == 44_100,
            r.channels == 2,
            r.frame_samples == 128,
    {
        AudioConfig { source: None, follow_active_sink: true, rate: 44_100, channels: 2, frame_samples: 128 }
    }
}

impl AudioConfig {
    /// Apply command-line overrides. A pinned source always wins; a zero
    /// rate, a channel count other than 1 or 2, or zero frame samples is
    /// rejected and the configured value kept (each later sizes buffers or
    /// divides).
    pub fn apply_cli(&mut self, source: &Option<String>, rate: Option<u32>, channels: Option<usize>, frame_samples: Option<usize>)
        ensures
            opt_view(&final(self).source) == (match source {
                Some(s) => Some(s@),
                None => opt_view(&old(self).source),
            }),
            final(self).follow_active_sink == old(self).follow_active_sink,
            final(self).rate == (match rate {
                Some(r) if r != 0 => r,
                _ => old(self).rate,
            }),
            final(self).channels == (match channels {
                Some(c) if c == 1 || c == 2 => c,
                _ => old(self).channels,
            }),
            final(self).frame_samples == (match frame_samples {
                Some(f) if f != 0 => f,
                _ => old(self).frame_samples,
            }),
    {
        if let Some(s) = source {
            self.source = Some(s.clone());
        }
        if let Some(r) = rate {
            if r != 0 {
                self.rate = r;
            }
        }
        if let Some(c) = channels {
            if c == 1 || c == 2 {
                self.channels = c;
            }
        }
        if let Some(f) = frame_samples {
            if f != 0 {
                self.frame_samples = f;
            }
        }
    }
}

/// Bars per channel after a `--bars` override: zero is rejected (the current
/// value stays), values above [`MAX_BARS_PER_CHANNEL`] are clamped to it.
pub fn bars_from_cli(current: usize, bars: Option<usize>) -> (r: usize)
    ensures
        r == (match bars {
            None => current,
            Some(b) => if b == 0 {
                current
            } else if b > MAX_BARS_PER_CHANNEL {
                MAX_BARS_PER_CHANNEL
            } else {
                b
            },
        }),
{
    match bars {
        None => current,
        Some(b) => {
            if b == 0 {
                current
            } else if b > MAX_BARS_PER_CHANNEL {
                MAX_BARS_PER_CHANNEL
            } else {
                b
            }
        },
    }
}

/// `x` clamped into `lo..=hi`.
pub open spec fn spec_clamp(x: int, lo: int, hi: int) -> int {
    if x < lo { lo } else if x > hi { hi } else { x }
}

/// Capture and analysis sizes as the runtime uses them.
#[derive(Clone, Copy, Debug, PartialEq, Eq)]
pub struct CaptureSizes {
    /// Bars per channel, `1..=1024`.
    pub bars_per_channel: usize,
    /// Channels, 1 or 2.
    pub channels: usize,
    /// Sample rate, `8000..=384000` Hz.
    pub rate: u32,
    /// Samples per channel per execution, `16..=65536`.
    pub frame_samples: usize,
}

/// Clamp configured sizes into safe ranges before they size any buffer: bars
/// `1..=1024`, channels `1..=2`, rate `8000..=384000`, frame samples
/// `16..=65536`. A hand-edited config can hold anything.
pub fn clamp_sizes(bars_per_channel: usize, audio: &AudioConfig) -> (r: CaptureSizes)
    ensures
        r.bars_per_channel == spec_clamp(bars_per_channel as int, 1, MAX_BARS_PER_CHANNEL as int),
        r.channels == spec_clamp(audio.channels as int, 1, 2),
        r.rate == spec_clamp(audio.rate as int, 8_000, 384_000),
        r.frame_samples == spec_clamp(audio.frame_samples as int, 16, 65_536),
{
    let bars = if bars_per_channel < 1 { 1 } else if bars_per_channel > MAX_BARS_PER_CHANNEL { MAX_BARS_PER_CHANNEL } else { bars_per_channel };
    let channels = if audio.channels < 1 { 1 } else if audio.channels > 2 { 2 } else { audio.channels };
    let rate = if audio.rate < 8_000 { 8_000 } else if audio.rate > 384_000 { 384_000 } else { audio.rate };
    let fs = if audio.frame_samples < 16 { 16 } else if audio.frame_samples > 65_536 { 65_536 } else { audio.frame_samples };
    CaptureSizes { bars_per_channel: bars, channels, rate, frame_samples: fs }
}

/// Whatever the config file holds, the clamped sizes pass the analyser's
/// basic parameter checks and never exceed its highest rate.
pub proof fn law_clamped_sizes_are_valid(bars_per_channel: usize, channels: usize, rate: u32, frame_samples: usize)
    ensures
        ({
            let b = spec_clamp(bars_per_channel as int, 1, MAX_BARS_PER_CHANNEL as int);
            let c = spec_clamp(channels as int, 1, 2);
            let r = spec_clamp(rate as int, 8_000, 384_000);
            &&& spec_check_shape(b as u32, r as u32, c as u32) is Ok
            &&& r <= MAX_RATE
            &&& spec_clamp(b, 1, MAX_BARS_PER_CHANNEL as int) == b
            &&& spec_clamp(c, 1, 2) == c
            &&& spec_clamp(r, 8_000, 384_000) == r
        }),
{
}

/// Index of the active color profile among `count >= 1` profiles: the
/// configured index, clamped to the last profile.
pub fn active_profile_index(active: usize, count: usize) -> (r: usize)
    requires
        count >= 1,
    ensures
        r == (if active < count - 1 { active } else { (count - 1) as usize }),
        r < count,
{
    if active < count - 1 { active } else { count - 1 }
}

/// Most accent colors the album-art palette offers.
pub const MAX_DYNAMIC_COLORS: usize = 5;

/// Album-art colors used for dynamic colors, clamped to `2..=5`.
pub fn dynamic_color_count(configured: usize) -> (r: usize)
    ensures
        r == spec_clamp(configured as int, 2, MAX_DYNAMIC_COLORS as int),
{
    if configured < 2 { 2 } else if configured > MAX_DYNAMIC_COLORS { MAX_DYNAMIC_COLORS } else { configured }
}

/// The active config file location, kept so the editor saves and reloads the
/// file the session started with.
#[derive(Debug)]
pub struct ConfigHandle {
    /// Path of the main `config.toml` this session reads and writes.
    pub path: PathBuf,
}

/// What reading the config file came to.
#[derive(Clone, Copy, Debug, PartialEq, Eq)]
pub enum ConfigRead {
    /// The text was read and parses as a config.
    Parsed,
    /// The text was read but does not parse.
    Unparsable,
    /// There is no config file yet.
    Missing,
    /// Reading failed for another reason.
    Unreadable,
}

/// Where loading the config stands; each phase names the work to do next.
#[derive(Clone, Copy, Debug, PartialEq, Eq)]
pub enum LoadPhase {
    /// Read and parse the config file.
    Reading,
    /// Move the unparsable file aside to its backup path.
    BackingUp,
    /// Write fresh defaults at the config path: over a file just backed up
    /// (`after_backup`), or where there was none.
    Writing { after_backup: bool },
    /// Stop: use the parsed config, or the defaults.
    Done { use_parsed: bool },
}

/// The outcome of a phase's work.
#[derive(Clone, Copy, Debug, PartialEq, Eq)]
pub enum LoadEvent {
    /// The read gave this.
    Read(ConfigRead),
    /// The rename to the backup path succeeded (`true`) or failed.
    Renamed(bool),
    /// Writing the defaults succeeded (`true`) or failed.
    Wrote(bool),
}

/// What to tell the user along the way.
#[derive(Clone, Copy, Debug, PartialEq, Eq)]
pub enum LoadNote {
    /// The file could not be read; defaults are used and nothing is written.
    ReadFailed,
    /// The unparsable file could not be backed up: it is left untouched and
    /// defaults are used.
    BackupFailed,
    /// The unparsable file was backed up; fresh defaults are written next.
    BackedUp,
    /// Fresh defaults could not be written over the backed-up file.
    FreshWriteFailed,
    /// The missing file could not be created.
    CreateFailed,
    /// The missing file was created with the defaults.
    Created,
}

/// Whether `event` reports the work `phase` asks for.
pub open spec fn spec_event_fits(phase: LoadPhase, event: LoadEvent) -> bool {
    match phase {
        LoadPhase::Reading => event is Read,
        LoadPhase::BackingUp => event is Renamed,
        LoadPhase::Writing { .. } => event is Wrote,
        LoadPhase::Done { .. } => false,
    }
}

/// The next phase of loading the config, and the note to show, after
/// `event`: a parsed file is used as is; an unparsable one is backed up and
/// replaced by defaults, or left untouched when the backup fails; a missing
/// one is created with defaults; any other read failure falls back to
/// defaults without writing.
pub open spec fn spec_load_step(phase: LoadPhase, event: LoadEvent) -> (LoadPhase, Option<LoadNote>) {
    match event {
        LoadEvent::Read(ConfigRead::Parsed) => (LoadPhase::Done { use_parsed: true }, None),
        LoadEvent::Read(ConfigRead::Unparsable) => (LoadPhase::BackingUp, None),
        LoadEvent::Read(ConfigRead::Missing) => (LoadPhase::Writing { after_backup: false }, None),
        LoadEvent::Read(ConfigRead::Unreadable) => (LoadPhase::Done { use_parsed: false }, Some(LoadNote::ReadFailed)),
        LoadEvent::Renamed(true) => (LoadPhase::Writing { after_backup: true }, Some(LoadNote::BackedUp)),
        LoadEvent::Renamed(false) => (LoadPhase::Done { use_parsed: false }, Some(LoadNote::BackupFailed)),
        LoadEvent::Wrote(ok) => (
            LoadPhase::Done { use_parsed: false },
            match phase {
                LoadPhase::Writing { after_backup: true } => if ok { None } else { Some(LoadNote::FreshWriteFailed) },
                _ => if ok { Some(LoadNote::Created) } else { Some(LoadNote::CreateFailed) },
            },
        ),
    }
}

/// One step of loading the config file at startup: from the current phase
/// and the outcome of its work to the next phase and the note to show.
pub fn load_step(phase: LoadPhase, event: LoadEvent) -> (r: (LoadPhase, Option<LoadNote>))
    requires
        spec_event_fits(phase, event),
    ensures
        r == spec_load_step(phase, event),
{
    match event {
        LoadEvent::Read(ConfigRead::Parsed) => (LoadPhase::Done { use_parsed: true }, None),
        LoadEvent::Read(ConfigRead::Unparsable) => (LoadPhase::BackingUp, None),
        LoadEvent::Read(ConfigRead::Missing) => (LoadPhase::Writing { after_backup: false }, None),
        LoadEvent::Read(ConfigRead::Unreadable) => (LoadPhase::Done { use_parsed: false }, Some(LoadNote::ReadFailed)),
        LoadEvent::Renamed(ok) => if ok {
            (LoadPhase::Writing { after_backup: true }, Some(LoadNote::BackedUp))
        } else {
            (LoadPhase::Done { use_parsed: false }, Some(LoadNote::BackupFailed))
        },
        LoadEvent::Wrote(ok) => {
            let backed_up = match phase {
                LoadPhase::Writing { after_backup } => after_backup,
                _ => false,
            };
            let note = if backed_up {
                if ok { None } else { Some(LoadNote::FreshWriteFailed) }
            } else if ok {
                Some(LoadNote::Created)
            } else {
                Some(LoadNote::CreateFailed)
            };
            (LoadPhase::Done { use_parsed: false }, note)
        },
    }
}

/// Steps left before loading is done, at most.
pub open spec fn spec_load_rank(phase: LoadPhase) -> nat {
    match phase {
        LoadPhase::Reading => 3,
        LoadPhase::BackingUp => 2,
        LoadPhase::Writing { .. } => 1,
        LoadPhase::Done { .. } => 0,
    }
}

/// Loading always finishes: every step moves closer to `Done`, so a load
/// takes at most three steps after the read.
pub proof fn law_load_terminates(phase: LoadPhase, event: LoadEvent)
    requires
        spec_event_fits(phase, event),
    ensures
        spec_load_rank(spec_load_step(phase, event).0) < spec_load_rank(phase),
{
}

/// The config file is only ever overwritten where there was none, or after
/// the unparsable one was backed up; the parsed file is used only when the
/// read parsed, and nothing is written after a plain read failure.
pub proof fn law_load_never_clobbers(phase: LoadPhase, event: LoadEvent)
    requires
        spec_event_fits(phase, event),
    ensures
        spec_load_step(phase, event).0 is Writing ==> (event == LoadEvent::Read(ConfigRead::Missing)
            || event == LoadEvent::Renamed(true)),
        spec_load_step(phase, event).0 == (LoadPhase::Done { use_parsed: true })
            <==> event == LoadEvent::Read(ConfigRead::Parsed),
        event == LoadEvent::Read(ConfigRead::Unreadable) ==> spec_load_step(phase, event).0 is Done,
        event == LoadEvent::Renamed(false) ==> spec_load_step(phase, event).0 is Done,
{
}

} // verus!
