//! Configuration: what `~/.config/ratclick/config.toml` holds, its defaults,
//! and the clamping applied before it is used.
use std::time::Duration;
use vstd::prelude::*;
use crate::accel::{model, Accel, Modifiers};
use crate::text::{chars_of, lower, lower_chars, same, string_of, trim, trim_chars};
use crate::shortcut::gvariant::texts;

verus! {

/// Bumped only when a migration is needed; a newer file is refused.
pub const CONFIG_VERSION: u32 = 1;

pub const MIN_CPM: u32 = 1;

pub const DEFAULT_CPM: u32 = 600;

/// The largest rate the command line and the terminal wizard accept.
pub const MAX_CPM: u32 = 6000;

/// Which mouse button the virtual device presses.
#[derive(Debug, Clone, Copy, PartialEq, Eq, Structural)]
pub enum Button {
    Left,
    Right,
    Middle,
}

impl Default for Button {
    fn default() -> (b: Button)
        ensures
            b == Button::Left,
    {
        Button::Left
    }
}

pub open spec fn button_name(b: Button) -> Seq<char> {
    match b {
        Button::Left => "left"@,
        Button::Right => "right"@,
        Button::Middle => "middle"@,
    }
}

/// The button a user-typed name selects.
pub open spec fn button_from_spec(s: Seq<char>) -> Option<Button> {
    let l = lower(trim(s));
    if l == "left"@ || l == "l"@ || l == "1"@ {
        Some(Button::Left)
    } else if l == "right"@ || l == "r"@ || l == "3"@ {
        Some(Button::Right)
    } else if l == "middle"@ || l == "m"@ || l == "2"@ {
        Some(Button::Middle)
    } else {
        None
    }
}

impl Button {
    pub fn as_str(self) -> (s: &'static str)
        ensures
            s@ == button_name(self),
    {
        match self {
            Button::Left => "left",
            Button::Right => "right",
            Button::Middle => "middle",
        }
    }

    pub fn from_str_opt(s: &str) -> (r: Option<Button>)
        ensures
            r == button_from_spec(s@),
    {
        let l = lower_chars(&trim_chars(&chars_of(s)));
        if same(&l, "left") || same(&l, "l") || same(&l, "1") {
            Some(Button::Left)
        } else if same(&l, "right") || same(&l, "r") || same(&l, "3") {
            Some(Button::Right)
        } else if same(&l, "middle") || same(&l, "m") || same(&l, "2") {
            Some(Button::Middle)
        } else {
            None
        }
    }
}

/// Whether a clicking run stops on its own.
#[derive(Debug, Clone, Copy, PartialEq, Eq, Structural)]
pub enum ClickMode {
    /// Runs until toggled off.
    Endless,
    /// Runs for the configured duration and then stops itself.
    Timed,
}

impl Default for ClickMode {
    fn default() -> (m: ClickMode)
        ensures
            m == ClickMode::Endless,
    {
        ClickMode::Endless
    }
}

pub open spec fn mode_name(m: ClickMode) -> Seq<char> {
    match m {
        ClickMode::Endless => "endless"@,
        ClickMode::Timed => "timed"@,
    }
}

impl ClickMode {
    pub fn as_str(self) -> (s: &'static str)
        ensures
            s@ == mode_name(self),
    {
        match self {
            ClickMode::Endless => "endless",
            ClickMode::Timed => "timed",
        }
    }
}

/// Which mechanism grabs the global shortcut.
#[derive(Debug, Clone, Copy, PartialEq, Eq, Structural)]
pub enum ShortcutBackend {
    /// A GNOME custom keybinding managed through gsettings.
    Gnome,
    /// The RatClick GNOME Shell extension registers the key itself.
    Extension,
    /// A system-wide keyd binding; needs root to install.
    Keyd,
    /// No global shortcut.
    Off,
}

impl Default for ShortcutBackend {
    fn default() -> (b: ShortcutBackend)
        ensures
            b == ShortcutBackend::Gnome,
    {
        ShortcutBackend::Gnome
    }
}

pub open spec fn backend_name(b: ShortcutBackend) -> Seq<char> {
    match b {
        ShortcutBackend::Gnome => "gnome"@,
        ShortcutBackend::Extension => "extension"@,
        ShortcutBackend::Keyd => "keyd"@,
        ShortcutBackend::Off => "none"@,
    }
}

/// The backend a user-typed name selects.
pub open spec fn backend_from_spec(s: Seq<char>) -> Option<ShortcutBackend> {
    let l = lower(trim(s));
    if l == "gnome"@ || l == "gsettings"@ {
        Some(ShortcutBackend::Gnome)
    } else if l == "extension"@ || l == "shell"@ {
        Some(ShortcutBackend::Extension)
    } else if l == "keyd"@ {
        Some(ShortcutBackend::Keyd)
    } else if l == "none"@ || l == "off"@ || l == "disabled"@ {
        Some(ShortcutBackend::Off)
    } else {
        None
    }
}

impl ShortcutBackend {
    pub fn as_str(self) -> (s: &'static str)
        ensures
            s@ == backend_name(self),
    {
        match self {
            ShortcutBackend::Gnome => "gnome",
            ShortcutBackend::Extension => "extension",
            ShortcutBackend::Keyd => "keyd",
            ShortcutBackend::Off => "none",
        }
    }

    pub fn from_str_opt(s: &str) -> (r: Option<ShortcutBackend>)
        ensures
            r == backend_from_spec(s@),
    {
        let l = lower_chars(&trim_chars(&chars_of(s)));
        if same(&l, "gnome") || same(&l, "gsettings") {
            Some(ShortcutBackend::Gnome)
        } else if same(&l, "extension") || same(&l, "shell") {
            Some(ShortcutBackend::Extension)
        } else if same(&l, "keyd") {
            Some(ShortcutBackend::Keyd)
        } else if same(&l, "none") || same(&l, "off") || same(&l, "disabled") {
            Some(ShortcutBackend::Off)
        } else {
            None
        }
    }
}

/// How to click.
#[derive(Debug, Clone, Copy, PartialEq, Eq, Structural)]
pub struct ClickConfig {
    pub button: Button,
    /// Clicks per minute.
    pub cpm: u32,
    pub mode: ClickMode,
    /// Duration of a timed run, in whole minutes.
    pub duration_minutes: u32,
}

impl Default for ClickConfig {
    fn default() -> (c: ClickConfig)
        ensures
            c == default_click(),
    {
        ClickConfig {
            button: Button::Left,
            cpm: DEFAULT_CPM,
            mode: ClickMode::Endless,
            duration_minutes: 30,
        }
    }
}

pub open spec fn default_click() -> ClickConfig {
    ClickConfig {
        button: Button::Left,
        cpm: DEFAULT_CPM,
        mode: ClickMode::Endless,
        duration_minutes: 30,
    }
}

/// `Duration::from_nanos(n)`.
pub uninterp spec fn duration_of_nanos(n: u64) -> Duration;

/// `Duration::from_secs(n)`.
pub uninterp spec fn duration_of_secs(n: u64) -> Duration;

/// `Duration::as_secs(d)`.
pub uninterp spec fn secs_of(d: Duration) -> u64;

/// `Duration::from_nanos`: the span of `n` nanoseconds, whose whole seconds are `n / 10^9`.
#[verifier::external_body]
pub(crate) fn duration_from_nanos(n: u64) -> (d: Duration)
    ensures
        d == duration_of_nanos(n),
        secs_of(d) == n / 1_000_000_000,
{
    Duration::from_nanos(n)
}

/// `Duration::from_secs`: the span of `n` whole seconds.
#[verifier::external_body]
pub(crate) fn duration_from_secs(n: u64) -> (d: Duration)
    ensures
        d == duration_of_secs(n),
        secs_of(d) == n,
{
    Duration::from_secs(n)
}

/// `Duration::as_secs`: the whole seconds in `d`.
#[verifier::external_body]
pub(crate) fn duration_as_secs(d: Duration) -> (s: u64)
    ensures
        s == secs_of(d),
{
    d.as_secs()
}

/// Nanoseconds between clicks at `cpm` clicks per minute (floored at one per minute).
pub open spec fn interval_nanos_spec(cpm: u32) -> u64 {
    (60_000_000_000u64 / (if cpm < MIN_CPM { MIN_CPM } else { cpm }) as u64) as u64
}

/// Seconds in a run: `None` when endless; a timed run lasts at least a minute.
pub open spec fn duration_secs_spec(c: ClickConfig) -> Option<u64> {
    match c.mode {
        ClickMode::Endless => None,
        ClickMode::Timed => Some(
            ((if c.duration_minutes < 1 { 1 } else { c.duration_minutes }) as u64 * 60) as u64,
        ),
    }
}

impl ClickConfig {
    /// Nanoseconds between clicks. There is no upper bound on `cpm`, only a
    /// floor at [`MIN_CPM`] so the division can never be by zero.
    pub fn interval_nanos(&self) -> (n: u64)
        ensures
            n == interval_nanos_spec(self.cpm),
            n > 0,
    {
        let cpm: u64 = if self.cpm < MIN_CPM {
            MIN_CPM as u64
        } else {
            self.cpm as u64
        };
        assert(cpm <= 0xffff_ffff);
        assert(60_000_000_000u64 / cpm >= 13) by (nonlinear_arith)
            requires
                1 <= cpm <= 0xffff_ffff,
        ;
        60_000_000_000u64 / cpm
    }

    /// Interval between clicks.
    pub fn interval(&self) -> (d: Duration)
        ensures
            d == duration_of_nanos(interval_nanos_spec(self.cpm)),
    {
        duration_from_nanos(self.interval_nanos())
    }

    /// Seconds in a timed run, or `None` when endless.
    pub fn duration_secs(&self) -> (s: Option<u64>)
        ensures
            s == duration_secs_spec(*self),
    {
        match self.mode {
            ClickMode::Endless => None,
            ClickMode::Timed => {
                let m: u64 = if self.duration_minutes < 1 {
                    1
                } else {
                    self.duration_minutes as u64
                };
                Some(m * 60)
            },
        }
    }

    /// Total run length for a timed run, or `None` when endless.
    pub fn duration(&self) -> (d: Option<Duration>)
        ensures
            d matches Some(x) ==> duration_secs_spec(*self) matches Some(n) && x
                == duration_of_secs(n),
            d is None <==> duration_secs_spec(*self) is None,
    {
        match self.duration_secs() {
            None => None,
            Some(n) => Some(duration_from_secs(n)),
        }
    }

    /// Split the duration into the hours and minutes the GUI displays.
    pub fn duration_hm(&self) -> (hm: (u32, u32))
        ensures
            hm == (self.duration_minutes / 60, self.duration_minutes % 60),
    {
        (self.duration_minutes / 60, self.duration_minutes % 60)
    }

    /// Set the duration from hours and minutes, never below one minute.
    pub fn set_duration_hm(&mut self, hours: u32, minutes: u32)
        requires
            hours * 60 + minutes <= u32::MAX,
        ensures
            final(self).duration_minutes == (if hours * 60 + minutes < 1 {
                1
            } else {
                hours * 60 + minutes
            }),
            final(self).button == old(self).button,
            final(self).cpm == old(self).cpm,
            final(self).mode == old(self).mode,
    {
        let total = hours * 60 + minutes;
        self.duration_minutes = if total < 1 {
            1
        } else {
            total
        };
    }
}

/// Which shortcut to install, and how.
#[derive(Debug, Clone, PartialEq, Eq)]
pub struct ShortcutConfig {
    pub backend: ShortcutBackend,
    /// Every accelerator that toggles clicking.
    pub bindings: Vec<Accel>,
}

impl Default for ShortcutConfig {
    fn default() -> (c: ShortcutConfig)
        ensures
            c.backend == ShortcutBackend::Gnome,
            c.bindings@.len() == 0,
    {
        ShortcutConfig { backend: ShortcutBackend::Gnome, bindings: Vec::new() }
    }
}

/// Everything RatClick persists.
#[derive(Debug, Clone, PartialEq, Eq)]
pub struct Config {
    pub version: u32,
    /// Set once the first-run wizard has been completed.
    pub setup_complete: bool,
    /// Begin clicking as soon as the daemon starts. Off by default.
    pub start_clicking_on_launch: bool,
    pub click: ClickConfig,
    pub shortcut: ShortcutConfig,
}

/// The default configuration: version 1, no setup yet, 600 CPM left-button
/// endless clicking, the GNOME backend with no bindings.
pub open spec fn is_default(c: Config) -> bool {
    &&& c.version == CONFIG_VERSION
    &&& !c.setup_complete
    &&& !c.start_clicking_on_launch
    &&& c.click == default_click()
    &&& c.shortcut.backend == ShortcutBackend::Gnome
    &&& c.shortcut.bindings@.len() == 0
}

impl Default for Config {
    fn default() -> (c: Config)
        ensures
            is_default(c),
    {
        Config {
            version: CONFIG_VERSION,
            setup_complete: false,
            start_clicking_on_launch: false,
            click: ClickConfig::default(),
            shortcut: ShortcutConfig::default(),
        }
    }
}

/// Why a configuration file was refused.
#[derive(Debug, Clone, PartialEq, Eq)]
pub enum ConfigError {
    /// Written by a newer RatClick: the file's version is given.
    TooNew(u32),
}

/// The bindings as modifier bits and keys.
pub open spec fn binding_models(v: Seq<Accel>) -> Seq<(u8, Seq<char>)> {
    v.map_values(|a: Accel| model(a))
}

/// `Vec::dedup`: each run of consecutive equal elements shrinks to its first.
pub open spec fn dedup_spec(s: Seq<(u8, Seq<char>)>) -> Seq<(u8, Seq<char>)>
    decreases s.len(),
{
    if s.len() == 0 {
        s
    } else {
        let d = dedup_spec(s.drop_last());
        if d.len() > 0 && d.last() == s.last() {
            d
        } else {
            d.push(s.last())
        }
    }
}

/// What normalising changes, and the note for each change, in order.
pub open spec fn normalise_notes(c: Config) -> Seq<Seq<char>> {
    let a: Seq<Seq<char>> = if c.click.cpm < MIN_CPM {
        seq!["clicks per minute raised to 1"@]
    } else {
        Seq::empty()
    };
    let b = if c.click.mode == ClickMode::Timed && c.click.duration_minutes == 0 {
        a.push("timed duration raised to 1 minute"@)
    } else {
        a
    };
    if dedup_spec(binding_models(c.shortcut.bindings@)).len() != c.shortcut.bindings@.len() {
        b.push("removed duplicate shortcuts"@)
    } else {
        b
    }
}

/// `a` and `b` agree on everything but the fields normalising may change.
pub open spec fn normalised_from(after: Config, before: Config) -> bool {
    &&& after.version == before.version
    &&& after.setup_complete == before.setup_complete
    &&& after.start_clicking_on_launch == before.start_clicking_on_launch
    &&& after.click.button == before.click.button
    &&& after.click.mode == before.click.mode
    &&& after.click.cpm == (if before.click.cpm < MIN_CPM { MIN_CPM } else { before.click.cpm })
    &&& after.click.duration_minutes == (if before.click.mode == ClickMode::Timed
        && before.click.duration_minutes == 0 {
        1
    } else {
        before.click.duration_minutes
    })
    &&& after.shortcut.backend == before.shortcut.backend
    &&& binding_models(after.shortcut.bindings@) == dedup_spec(
        binding_models(before.shortcut.bindings@),
    )
}

/// Remove consecutive duplicates (`Vec::dedup`).
fn dedup_accels(v: Vec<Accel>) -> (r: Vec<Accel>)
    ensures
        binding_models(r@) == dedup_spec(binding_models(v@)),
{
    let mut r: Vec<Accel> = Vec::new();
    let mut i: usize = 0;
    while i < v.len()
        invariant
            i <= v.len(),
            binding_models(r@) == dedup_spec(binding_models(v@.subrange(0, i as int))),
        decreases v.len() - i,
    {
        let ghost before = binding_models(r@);
        assert(binding_models(v@.subrange(0, i + 1)).drop_last() == binding_models(
            v@.subrange(0, i as int),
        ));
        assert(binding_models(v@.subrange(0, i + 1)).last() == model(v@[i as int]));
        let keep = if r.len() == 0 {
            true
        } else {
            let last = r.len() - 1;
            assert(binding_models(r@).last() == model(r@[last as int]));
            proof {
                if r@[last as int].mods.bits() == v@[i as int].mods.bits() {
                    Modifiers::lemma_bits_eq(r@[last as int].mods, v@[i as int].mods);
                }
            }
            !(r[last].mods == v[i].mods && r[last].key == v[i].key)
        };
        if keep {
            r.push(v[i].clone());
            assert(binding_models(r@) == before.push(model(v@[i as int])));
        }
        i = i + 1;
    }
    assert(v@.subrange(0, v@.len() as int) == v@);
    r
}

impl Config {
    /// The configuration a file's contents stand for without parsing: the
    /// defaults when there is no file, or when it is empty or only
    /// whitespace (`touch config.toml` is a plausible thing to have done).
    /// `None` means the text has to be parsed.
    pub fn load(contents: Option<&str>) -> (r: Option<Config>)
        ensures
            r is Some <==> (contents is None || trim(contents->0@).len() == 0),
            r matches Some(c) ==> is_default(c),
    {
        match contents {
            None => Some(Config::default()),
            Some(text) => {
                if trim_chars(&chars_of(text)).len() == 0 {
                    Some(Config::default())
                } else {
                    None
                }
            },
        }
    }

    /// Accept a parsed file, refusing one written by a newer RatClick.
    pub fn accept(parsed: Config) -> (r: Result<Config, ConfigError>)
        ensures
            r is Ok <==> parsed.version <= CONFIG_VERSION,
            r matches Ok(c) ==> c == parsed,
            r matches Err(e) ==> e == ConfigError::TooNew(parsed.version),
    {
        if parsed.version > CONFIG_VERSION {
            Err(ConfigError::TooNew(parsed.version))
        } else {
            Ok(parsed)
        }
    }

    /// True when there is nothing usable on disk yet and the wizard should run.
    pub fn needs_setup(&self) -> (b: bool)
        ensures
            b == !self.setup_complete,
    {
        !self.setup_complete
    }

    /// Clamp anything out of range rather than refusing to run, and report
    /// what was adjusted so the caller can tell the user.
    pub fn normalise(&mut self) -> (notes: Vec<String>)
        ensures
            normalised_from(*final(self), *old(self)),
            texts(notes@) == normalise_notes(*old(self)),
            notes@.len() == 0 <==> (final(self).click == old(self).click && binding_models(
                final(self).shortcut.bindings@,
            ) == binding_models(old(self).shortcut.bindings@)),
    {
        let mut notes: Vec<String> = Vec::new();
        if self.click.cpm < MIN_CPM {
            notes.push(string_of(&chars_of("clicks per minute raised to 1")));
            self.click.cpm = MIN_CPM;
        }
        let ghost a = texts(notes@);
        if self.click.mode == ClickMode::Timed && self.click.duration_minutes == 0 {
            notes.push(string_of(&chars_of("timed duration raised to 1 minute")));
            self.click.duration_minutes = 1;
        }
        let ghost b = texts(notes@);
        let before = self.shortcut.bindings.len();
        let mut taken: Vec<Accel> = Vec::new();
        std::mem::swap(&mut taken, &mut self.shortcut.bindings);
        self.shortcut.bindings = dedup_accels(taken);
        if self.shortcut.bindings.len() != before {
            notes.push(string_of(&chars_of("removed duplicate shortcuts")));
            assert(texts(notes@) == b.push("removed duplicate shortcuts"@));
        }
        proof {
            lemma_dedup_len(binding_models(old(self).shortcut.bindings@));
            lemma_dedup_same_len(binding_models(old(self).shortcut.bindings@));
        }
        notes
    }
}

proof fn lemma_dedup_same_len(s: Seq<(u8, Seq<char>)>)
    ensures
        dedup_spec(s).len() == s.len() ==> dedup_spec(s) == s,
    decreases s.len(),
{
    if s.len() > 0 {
        let dl = s.drop_last();
        lemma_dedup_len(dl);
        lemma_dedup_same_len(dl);
        if dedup_spec(s).len() == s.len() {
            assert(dedup_spec(dl).push(s.last()) =~= s);
        }
    }
}

proof fn lemma_dedup_len(s: Seq<(u8, Seq<char>)>)
    ensures
        dedup_spec(s).len() <= s.len(),
    decreases s.len(),
{
    if s.len() > 0 {
        lemma_dedup_len(s.drop_last());
    }
}

/// No two neighbours are equal.
pub open spec fn no_adjacent_dups(s: Seq<(u8, Seq<char>)>) -> bool {
    forall|i: int, j: int| 0 <= i && j == i + 1 && j < s.len() ==> #[trigger] s[i] != #[trigger] s[j]
}

proof fn lemma_dedup_shape(s: Seq<(u8, Seq<char>)>)
    ensures
        no_adjacent_dups(dedup_spec(s)),
        s.len() > 0 ==> dedup_spec(s).len() > 0 && dedup_spec(s).last() == s.last(),
    decreases s.len(),
{
    if s.len() > 0 {
        lemma_dedup_shape(s.drop_last());
    }
}

proof fn lemma_dedup_fixed(s: Seq<(u8, Seq<char>)>)
    requires
        no_adjacent_dups(s),
    ensures
        dedup_spec(s) == s,
    decreases s.len(),
{
    if s.len() > 0 {
        let t = s.drop_last();
        assert(no_adjacent_dups(t)) by {
            assert forall|i: int, j: int| 0 <= i && j == i + 1 && j < t.len() implies #[trigger] t[i]
                != #[trigger] t[j] by {
                assert(t[i] == s[i] && t[j] == s[j]);
            }
        }
        lemma_dedup_fixed(t);
        if t.len() > 0 {
            assert(s[t.len() - 1] != s[t.len() as int]);
            assert(dedup_spec(t).last() == s[t.len() - 1]);
        }
        assert(t.push(s.last()) == s);
    }
}

/// Normalising twice changes nothing the second time: the result of one
/// normalisation is already in range and reports nothing further.
pub proof fn law_normalise_idempotent(before: Config, once: Config, twice: Config)
    requires
        normalised_from(once, before),
        normalised_from(twice, once),
    ensures
        normalise_notes(once).len() == 0,
        twice.click == once.click,
        twice.version == once.version,
        twice.setup_complete == once.setup_complete,
        twice.start_clicking_on_launch == once.start_clicking_on_launch,
        twice.shortcut.backend == once.shortcut.backend,
        binding_models(twice.shortcut.bindings@) == binding_models(once.shortcut.bindings@),
{
    lemma_dedup_shape(binding_models(before.shortcut.bindings@));
    lemma_dedup_fixed(binding_models(once.shortcut.bindings@));
}

} // verus!
