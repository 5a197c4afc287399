//! What the `ratclick` command line decides: reading whole numbers and
//! durations the way users type them, applying `config set KEY VALUE`, and
//! which of the desktop's shortcuts `shortcut list` shows.
use vstd::prelude::*;
use crate::config::{
    backend_from_spec, button_from_spec, Button, ClickConfig, ClickMode, Config, ShortcutBackend,
    MAX_CPM, MIN_CPM,
};
use crate::accel::{model, to_display_spec, Accel};
use crate::shortcut::gnome::{describe_owner, owner_views, Owner, OwnerV};
use crate::shortcut::keyd;
use crate::text::{
    all_ascii, all_digits, chars_of, contains_lit, contains_seq, dec, find_char, first_index,
    is_digit, lower, lower_chars, push_all, push_dec, push_str, same, slice, string_of, trim,
    trim_chars,
};

verus! {

/// The value of a run of decimal digits.
pub open spec fn digits_value(d: Seq<char>) -> nat
    decreases d.len(),
{
    if d.len() == 0 {
        0
    } else {
        digits_value(d.drop_last()) * 10 + (d.last() as int - '0' as int) as nat
    }
}

/// `str::parse::<u32>`: an optional `+`, then at least one digit, and a
/// value that fits.
pub open spec fn parse_u32_spec(s: Seq<char>) -> Option<u32> {
    let d = if s.len() > 0 && s[0] == '+' {
        s.drop_first()
    } else {
        s
    };
    if d.len() == 0 || !all_digits(d) || digits_value(d) > u32::MAX {
        None
    } else {
        Some(digits_value(d) as u32)
    }
}

/// One past the largest `u32`: values at least this large are all too large.
pub open spec fn cap(x: int) -> int {
    if x > 0x1_0000_0000 {
        0x1_0000_0000
    } else {
        x
    }
}

/// `str::parse::<u32>` on characters.
pub fn parse_u32(v: &[char]) -> (r: Option<u32>)
    ensures
        r == parse_u32_spec(v@),
{
    let start: usize = if v.len() > 0 && v[0] == '+' {
        1
    } else {
        0
    };
    let ghost d = v@.subrange(start as int, v@.len() as int);
    assert(d == (if v@.len() > 0 && v@[0] == '+' { v@.drop_first() } else { v@ }));
    if start == v.len() {
        return None;
    }
    let mut acc: u64 = 0;
    let mut i: usize = start;
    assert(v@.subrange(start as int, start as int) =~= Seq::<char>::empty());
    while i < v.len()
        invariant
            start <= i <= v.len(),
            d == v@.subrange(start as int, v@.len() as int),
            d == (if v@.len() > 0 && v@[0] == '+' { v@.drop_first() } else { v@ }),
            all_digits(v@.subrange(start as int, i as int)),
            acc == cap(digits_value(v@.subrange(start as int, i as int)) as int),
        decreases v.len() - i,
    {
        let c = v[i];
        let ghost pre = v@.subrange(start as int, i as int);
        let ghost nxt = v@.subrange(start as int, i + 1);
        assert(nxt.drop_last() =~= pre);
        assert(nxt.last() == c);
        if !('0' <= c && c <= '9') {
            assert(d[i - start] == c);
            assert(!is_digit(d[i - start]));
            return None;
        }
        let dg = (c as u32 - 48) as u64;
        assert(dg == c as int - '0' as int);
        if acc < 0x1_0000_0000 {
            acc = acc * 10 + dg;
            if acc > 0x1_0000_0000 {
                acc = 0x1_0000_0000;
            }
        }
        assert forall|j: int| 0 <= j < nxt.len() implies #[trigger] is_digit(nxt[j]) by {
            if j < pre.len() {
                assert(nxt[j] == pre[j]);
            }
        }
        i = i + 1;
    }
    assert(v@.subrange(start as int, v@.len() as int) == d);
    if acc > 0xFFFF_FFFF {
        None
    } else {
        Some(acc as u32)
    }
}

/// Why a duration could not be read.
#[derive(Debug, Clone, PartialEq, Eq)]
pub enum DurationError {
    /// It comes to zero minutes.
    TooShort,
    /// The part before `:` is not a whole number.
    BadHours,
    /// The part after `:` is not a whole number.
    BadMinutes,
    /// It holds a character no spelling allows; the text read is given.
    Unreadable(String),
}

/// A [`DurationError`], with its text as characters.
pub enum DurationErr {
    TooShort,
    BadHours,
    BadMinutes,
    Unreadable(Seq<char>),
}

impl View for DurationError {
    type V = DurationErr;

    open spec fn view(&self) -> DurationErr {
        match self {
            DurationError::TooShort => DurationErr::TooShort,
            DurationError::BadHours => DurationErr::BadHours,
            DurationError::BadMinutes => DurationErr::BadMinutes,
            DurationError::Unreadable(s) => DurationErr::Unreadable(s@),
        }
    }
}

pub open spec fn duration_message(e: DurationErr) -> Seq<char> {
    match e {
        DurationErr::TooShort => "duration must be at least 1 minute"@,
        DurationErr::BadHours => "bad hours in duration"@,
        DurationErr::BadMinutes => "bad minutes in duration"@,
        DurationErr::Unreadable(s) => "cannot read `"@ + s
            + "` as a duration — try 90, 1h30m or 1:30"@,
    }
}

impl DurationError {
    /// The message shown for this error.
    pub fn message(&self) -> (s: String)
        ensures
            s@ == duration_message(self@),
    {
        match self {
            DurationError::TooShort => string_of(&chars_of("duration must be at least 1 minute")),
            DurationError::BadHours => string_of(&chars_of("bad hours in duration")),
            DurationError::BadMinutes => string_of(&chars_of("bad minutes in duration")),
            DurationError::Unreadable(s) => {
                let mut out: Vec<char> = Vec::new();
                push_str(&mut out, "cannot read `");
                push_all(&mut out, &chars_of(s.as_str()));
                push_str(&mut out, "` as a duration — try 90, 1h30m or 1:30");
                string_of(&out)
            },
        }
    }
}

/// The number a run of digits before a unit stands for; nothing counts as zero.
pub open spec fn unit_value(num: Seq<char>) -> int {
    match parse_u32_spec(num) {
        Some(v) => v as int,
        None => 0,
    }
}

/// Reading `1h 30m`: the minutes so far, the digits since the last unit,
/// whether a unit was seen, and whether a character no spelling allows was met.
pub open spec fn unit_step(st: (int, Seq<char>, bool, bool), c: char) -> (int, Seq<char>, bool, bool) {
    let (total, num, saw, bad) = st;
    if bad {
        st
    } else if is_digit(c) {
        (total, num.push(c), saw, bad)
    } else if c == 'h' {
        (total + unit_value(num) * 60, Seq::empty(), true, false)
    } else if c == 'm' {
        (total + unit_value(num), Seq::empty(), true, false)
    } else if c == ' ' {
        st
    } else {
        (total, num, saw, true)
    }
}

pub open spec fn unit_run(s: Seq<char>) -> (int, Seq<char>, bool, bool)
    decreases s.len(),
{
    if s.len() == 0 {
        (0, Seq::empty(), false, false)
    } else {
        unit_step(unit_run(s.drop_last()), s.last())
    }
}

/// A duration in minutes, as `90`, `1h30m`, `1h 30m`, `2h`, `45m` or `1:30`.
pub open spec fn duration_spec(input: Seq<char>) -> Result<int, DurationErr> {
    let s = lower(trim(input));
    match parse_u32_spec(s) {
        Some(v) => if v > 0 {
            Ok(v as int)
        } else {
            Err(DurationErr::TooShort)
        },
        None => match first_index(s, ':') {
            Some(i) => match parse_u32_spec(trim(s.subrange(0, i))) {
                None => Err(DurationErr::BadHours),
                Some(h) => match parse_u32_spec(trim(s.subrange(i + 1, s.len() as int))) {
                    None => Err(DurationErr::BadMinutes),
                    Some(m) => if h * 60 + m > 0 {
                        Ok(h * 60 + m)
                    } else {
                        Err(DurationErr::TooShort)
                    },
                },
            },
            None => {
                let st = unit_run(s);
                if st.3 {
                    Err(DurationErr::Unreadable(s))
                } else if st.2 && st.0 > 0 {
                    Ok(st.0)
                } else {
                    Err(DurationErr::TooShort)
                }
            },
        },
    }
}

/// Reading `input` as a duration overflows `u32` arithmetic, which panics.
pub open spec fn duration_overflows_spec(input: Seq<char>) -> bool {
    let s = lower(trim(input));
    match parse_u32_spec(s) {
        Some(_) => false,
        None => match first_index(s, ':') {
            Some(i) => match (
                parse_u32_spec(trim(s.subrange(0, i))),
                parse_u32_spec(trim(s.subrange(i + 1, s.len() as int))),
            ) {
                (Some(h), Some(m)) => h * 60 + m > u32::MAX,
                _ => false,
            },
            None => unit_run(s).0 > u32::MAX,
        },
    }
}

fn units_total(s: &[char]) -> (r: (u64, bool, bool))
    ensures
        r.0 == cap(unit_run(s@).0),
        r.1 == unit_run(s@).2,
        r.2 == unit_run(s@).3,
{
    let mut acc: u64 = 0;
    let mut num: Vec<char> = Vec::new();
    let mut saw = false;
    let mut bad = false;
    let mut i: usize = 0;
    assert(s@.subrange(0, 0) =~= Seq::<char>::empty());
    while i < s.len()
        invariant
            i <= s.len(),
            acc == cap(unit_run(s@.subrange(0, i as int)).0),
            unit_run(s@.subrange(0, i as int)).0 >= 0,
            num@ == unit_run(s@.subrange(0, i as int)).1,
            saw == unit_run(s@.subrange(0, i as int)).2,
            bad == unit_run(s@.subrange(0, i as int)).3,
        decreases s.len() - i,
    {
        let c = s[i];
        assert(s@.subrange(0, i + 1).drop_last() =~= s@.subrange(0, i as int));
        if bad {
        } else if '0' <= c && c <= '9' {
            num.push(c);
        } else if c == 'h' || c == 'm' {
            let x: u64 = match parse_u32(&num) {
                Some(v) => v as u64,
                None => 0,
            };
            let add: u64 = if c == 'h' {
                x * 60
            } else {
                x
            };
            acc = acc + add;
            if acc > 0x1_0000_0000 {
                acc = 0x1_0000_0000;
            }
            num = Vec::new();
            saw = true;
        } else if c == ' ' {
        } else {
            bad = true;
        }
        i = i + 1;
    }
    assert(s@.subrange(0, s@.len() as int) =~= s@);
    (acc, saw, bad)
}

/// Does reading `s` as a duration overflow? Callers check this first: the
/// arithmetic it would need does not fit in a `u32`.
pub fn duration_overflows(s: &str) -> (b: bool)
    ensures
        b == duration_overflows_spec(s@),
{
    let t = lower_chars(&trim_chars(&chars_of(s)));
    if parse_u32(&t).is_some() {
        return false;
    }
    match find_char(&t, ':') {
        Some(i) => {
            match (parse_u32(&trim_chars(&slice(&t, 0, i))), parse_u32(&trim_chars(&slice(&t, i + 1, t.len())))) {
                (Some(h), Some(m)) => h as u64 * 60 + m as u64 > 0xFFFF_FFFF,
                _ => false,
            }
        },
        None => {
            let (total, _, _) = units_total(&t);
            total > 0xFFFF_FFFF
        },
    }
}

/// Read a duration in minutes, in any of the spellings people type.
pub fn parse_duration_minutes(s: &str) -> (r: Result<u32, DurationError>)
    requires
        !duration_overflows_spec(s@),
    ensures
        match duration_spec(s@) {
            Ok(v) => r == Ok::<u32, DurationError>(v as u32),
            Err(e) => r matches Err(x) && x@ == e,
        },
{
    let t = lower_chars(&trim_chars(&chars_of(s)));
    match parse_u32(&t) {
        Some(v) => {
            if v > 0 {
                return Ok(v);
            } else {
                return Err(DurationError::TooShort);
            }
        },
        None => {},
    }
    match find_char(&t, ':') {
        Some(i) => {
            let h = match parse_u32(&trim_chars(&slice(&t, 0, i))) {
                Some(h) => h,
                None => {
                    return Err(DurationError::BadHours);
                },
            };
            let m = match parse_u32(&trim_chars(&slice(&t, i + 1, t.len()))) {
                Some(m) => m,
                None => {
                    return Err(DurationError::BadMinutes);
                },
            };
            let total = h * 60 + m;
            if total > 0 {
                Ok(total)
            } else {
                Err(DurationError::TooShort)
            }
        },
        None => {
            let (total, saw, bad) = units_total(&t);
            if bad {
                return Err(DurationError::Unreadable(string_of(&t)));
            }
            if saw && total > 0 {
                Ok(total as u32)
            } else {
                Err(DurationError::TooShort)
            }
        },
    }
}

/// Read a shortcut backend name for the command line.
pub fn parse_backend(s: &str) -> (r: Result<ShortcutBackend, String>)
    ensures
        match backend_from_spec(s@) {
            Some(b) => r matches Ok(x) && x == b,
            None => r matches Err(m) && m@ == "expected gnome, extension, keyd or none, got `"@ + s@
                + "`"@,
        },
{
    match ShortcutBackend::from_str_opt(s) {
        Some(b) => Ok(b),
        None => {
            let mut out: Vec<char> = Vec::new();
            push_str(&mut out, "expected gnome, extension, keyd or none, got `");
            push_all(&mut out, &chars_of(s));
            push_str(&mut out, "`");
            Err(string_of(&out))
        },
    }
}


/// Why `config set` refused a value.
#[derive(Debug, Clone, PartialEq, Eq)]
pub enum SettingError {
    CpmNotNumber,
    CpmOutOfRange,
    BadButton,
    BadMode,
    Duration(DurationError),
    HoursNotNumber,
    MinutesNotNumber,
    MinutesTooLarge,
    /// The setting's name, as read.
    UnknownSetting(String),
}

/// A [`SettingError`], with its text as characters.
pub enum SettingErr {
    CpmNotNumber,
    CpmOutOfRange,
    BadButton,
    BadMode,
    Duration(DurationErr),
    HoursNotNumber,
    MinutesNotNumber,
    MinutesTooLarge,
    UnknownSetting(Seq<char>),
}

impl View for SettingError {
    type V = SettingErr;

    open spec fn view(&self) -> SettingErr {
        match self {
            SettingError::CpmNotNumber => SettingErr::CpmNotNumber,
            SettingError::CpmOutOfRange => SettingErr::CpmOutOfRange,
            SettingError::BadButton => SettingErr::BadButton,
            SettingError::BadMode => SettingErr::BadMode,
            SettingError::Duration(e) => SettingErr::Duration(e@),
            SettingError::HoursNotNumber => SettingErr::HoursNotNumber,
            SettingError::MinutesNotNumber => SettingErr::MinutesNotNumber,
            SettingError::MinutesTooLarge => SettingErr::MinutesTooLarge,
            SettingError::UnknownSetting(s) => SettingErr::UnknownSetting(s@),
        }
    }
}

pub open spec fn setting_message(e: SettingErr) -> Seq<char> {
    match e {
        SettingErr::CpmNotNumber => "cpm must be a whole number"@,
        SettingErr::CpmOutOfRange => "cpm must be between "@ + dec(MIN_CPM as u64) + " and "@ + dec(
            MAX_CPM as u64,
        ),
        SettingErr::BadButton => "button must be left, right or middle"@,
        SettingErr::BadMode => "mode must be endless or timed"@,
        SettingErr::Duration(d) => duration_message(d),
        SettingErr::HoursNotNumber => "hours must be a whole number"@,
        SettingErr::MinutesNotNumber => "minutes must be a whole number"@,
        SettingErr::MinutesTooLarge => "minutes must be 0-59; use `duration` for longer"@,
        SettingErr::UnknownSetting(k) => "unknown setting `"@ + k
            + "` — try cpm, button, mode, duration, hours, minutes or autostart"@,
    }
}

impl SettingError {
    /// The message shown for this error.
    pub fn message(&self) -> (s: String)
        ensures
            s@ == setting_message(self@),
    {
        let mut out: Vec<char> = Vec::new();
        match self {
            SettingError::CpmNotNumber => push_str(&mut out, "cpm must be a whole number"),
            SettingError::CpmOutOfRange => {
                push_str(&mut out, "cpm must be between ");
                push_dec(&mut out, MIN_CPM as u64);
                push_str(&mut out, " and ");
                push_dec(&mut out, MAX_CPM as u64);
            },
            SettingError::BadButton => push_str(&mut out, "button must be left, right or middle"),
            SettingError::BadMode => push_str(&mut out, "mode must be endless or timed"),
            SettingError::Duration(d) => {
                return d.message();
            },
            SettingError::HoursNotNumber => push_str(&mut out, "hours must be a whole number"),
            SettingError::MinutesNotNumber => push_str(&mut out, "minutes must be a whole number"),
            SettingError::MinutesTooLarge => push_str(
                &mut out,
                "minutes must be 0-59; use `duration` for longer",
            ),
            SettingError::UnknownSetting(k) => {
                push_str(&mut out, "unknown setting `");
                push_all(&mut out, &chars_of(k.as_str()));
                push_str(
                    &mut out,
                    "` — try cpm, button, mode, duration, hours, minutes or autostart",
                );
            },
        }
        string_of(&out)
    }
}

/// The click settings with a new timed-run length of `hours * 60 + minutes`
/// (at least one minute).
pub open spec fn with_duration(click: ClickConfig, hours: int, minutes: int) -> ClickConfig {
    let total = hours * 60 + minutes;
    ClickConfig {
        button: click.button,
        cpm: click.cpm,
        mode: ClickMode::Timed,
        duration_minutes: (if total < 1 {
            1
        } else {
            total
        }) as u32,
    }
}

/// What `config set key value` does to the click settings and the autostart
/// flag, or why it refuses.
pub open spec fn setting_spec(click: ClickConfig, autostart: bool, key: Seq<char>, value: Seq<char>) -> Result<
    (ClickConfig, bool),
    SettingErr,
> {
    let k = lower(trim(key));
    let v = lower(trim(value));
    if k == "cpm"@ || k == "clicks-per-minute"@ {
        match parse_u32_spec(value) {
            None => Err(SettingErr::CpmNotNumber),
            Some(n) => if MIN_CPM <= n <= MAX_CPM {
                Ok(
                    (
                        ClickConfig {
                            button: click.button,
                            cpm: n,
                            mode: click.mode,
                            duration_minutes: click.duration_minutes,
                        },
                        autostart,
                    ),
                )
            } else {
                Err(SettingErr::CpmOutOfRange)
            },
        }
    } else if k == "button"@ {
        match button_from_spec(value) {
            None => Err(SettingErr::BadButton),
            Some(b) => Ok(
                (
                    ClickConfig {
                        button: b,
                        cpm: click.cpm,
                        mode: click.mode,
                        duration_minutes: click.duration_minutes,
                    },
                    autostart,
                ),
            ),
        }
    } else if k == "mode"@ {
        if v == "endless"@ || v == "e"@ {
            Ok(
                (
                    ClickConfig {
                        button: click.button,
                        cpm: click.cpm,
                        mode: ClickMode::Endless,
                        duration_minutes: click.duration_minutes,
                    },
                    autostart,
                ),
            )
        } else if v == "timed"@ || v == "t"@ {
            Ok(
                (
                    ClickConfig {
                        button: click.button,
                        cpm: click.cpm,
                        mode: ClickMode::Timed,
                        duration_minutes: click.duration_minutes,
                    },
                    autostart,
                ),
            )
        } else {
            Err(SettingErr::BadMode)
        }
    } else if k == "duration"@ {
        match duration_spec(value) {
            Err(e) => Err(SettingErr::Duration(e)),
            Ok(m) => Ok(
                (
                    ClickConfig {
                        button: click.button,
                        cpm: click.cpm,
                        mode: ClickMode::Timed,
                        duration_minutes: m as u32,
                    },
                    autostart,
                ),
            ),
        }
    } else if k == "hours"@ {
        match parse_u32_spec(value) {
            None => Err(SettingErr::HoursNotNumber),
            Some(h) => Ok((with_duration(click, h as int, (click.duration_minutes % 60) as int), autostart)),
        }
    } else if k == "minutes"@ {
        match parse_u32_spec(value) {
            None => Err(SettingErr::MinutesNotNumber),
            Some(m) => if m < 60 {
                Ok((with_duration(click, (click.duration_minutes / 60) as int, m as int), autostart))
            } else {
                Err(SettingErr::MinutesTooLarge)
            },
        }
    } else if k == "autostart"@ || k == "start-on-launch"@ {
        Ok((click, v == "1"@ || v == "true"@ || v == "yes"@ || v == "on"@))
    } else {
        Err(SettingErr::UnknownSetting(k))
    }
}

/// Applying the setting needs arithmetic beyond `u32`, which panics.
pub open spec fn setting_overflows_spec(click: ClickConfig, key: Seq<char>, value: Seq<char>) -> bool {
    let k = lower(trim(key));
    if k == "duration"@ {
        duration_overflows_spec(value)
    } else if k == "hours"@ {
        match parse_u32_spec(value) {
            Some(h) => h * 60 + click.duration_minutes % 60 > u32::MAX,
            None => false,
        }
    } else if k == "minutes"@ {
        match parse_u32_spec(value) {
            Some(m) => m < 60 && (click.duration_minutes / 60) * 60 + m > u32::MAX,
            None => false,
        }
    } else {
        false
    }
}

/// Does applying this setting overflow? Callers check this first.
pub fn setting_overflows(cfg: &Config, key: &str, value: &str) -> (b: bool)
    ensures
        b == setting_overflows_spec(cfg.click, key@, value@),
{
    let k = lower_chars(&trim_chars(&chars_of(key)));
    let raw = chars_of(value);
    if same(&k, "duration") {
        duration_overflows(value)
    } else if same(&k, "hours") {
        match parse_u32(&raw) {
            Some(h) => h as u64 * 60 + (cfg.click.duration_minutes % 60) as u64 > 0xFFFF_FFFF,
            None => false,
        }
    } else if same(&k, "minutes") {
        match parse_u32(&raw) {
            Some(m) => m < 60 && (cfg.click.duration_minutes / 60) as u64 * 60 + m as u64
                > 0xFFFF_FFFF,
            None => false,
        }
    } else {
        false
    }
}

/// Apply `config set key value` to `cfg`.
///
/// On an error nothing changes; the version, the setup flag and the shortcut
/// settings are never touched.
pub fn apply_setting(cfg: &mut Config, key: &str, value: &str) -> (r: Result<(), SettingError>)
    requires
        !setting_overflows_spec(old(cfg).click, key@, value@),
    ensures
        match setting_spec(old(cfg).click, old(cfg).start_clicking_on_launch, key@, value@) {
            Ok(x) => r is Ok && final(cfg).click == x.0 && final(cfg).start_clicking_on_launch == x.1,
            Err(e) => r matches Err(y) && y@ == e && final(cfg).click == old(cfg).click
                && final(cfg).start_clicking_on_launch == old(cfg).start_clicking_on_launch,
        },
        final(cfg).version == old(cfg).version,
        final(cfg).setup_complete == old(cfg).setup_complete,
        final(cfg).shortcut == old(cfg).shortcut,
{
    let k = lower_chars(&trim_chars(&chars_of(key)));
    let raw = chars_of(value);
    let v = lower_chars(&trim_chars(&raw));
    if same(&k, "cpm") || same(&k, "clicks-per-minute") {
        match parse_u32(&raw) {
            None => Err(SettingError::CpmNotNumber),
            Some(n) => {
                if MIN_CPM <= n && n <= MAX_CPM {
                    cfg.click.cpm = n;
                    Ok(())
                } else {
                    Err(SettingError::CpmOutOfRange)
                }
            },
        }
    } else if same(&k, "button") {
        match Button::from_str_opt(value) {
            None => Err(SettingError::BadButton),
            Some(b) => {
                cfg.click.button = b;
                Ok(())
            },
        }
    } else if same(&k, "mode") {
        if same(&v, "endless") || same(&v, "e") {
            cfg.click.mode = ClickMode::Endless;
            Ok(())
        } else if same(&v, "timed") || same(&v, "t") {
            cfg.click.mode = ClickMode::Timed;
            Ok(())
        } else {
            Err(SettingError::BadMode)
        }
    } else if same(&k, "duration") {
        match parse_duration_minutes(value) {
            Err(e) => Err(SettingError::Duration(e)),
            Ok(m) => {
                cfg.click.duration_minutes = m;
                cfg.click.mode = ClickMode::Timed;
                Ok(())
            },
        }
    } else if same(&k, "hours") {
        match parse_u32(&raw) {
            None => Err(SettingError::HoursNotNumber),
            Some(h) => {
                let (_, m) = cfg.click.duration_hm();
                cfg.click.set_duration_hm(h, m);
                cfg.click.mode = ClickMode::Timed;
                Ok(())
            },
        }
    } else if same(&k, "minutes") {
        match parse_u32(&raw) {
            None => Err(SettingError::MinutesNotNumber),
            Some(m) => {
                if m < 60 {
                    let (h, _) = cfg.click.duration_hm();
                    cfg.click.set_duration_hm(h, m);
                    cfg.click.mode = ClickMode::Timed;
                    Ok(())
                } else {
                    Err(SettingError::MinutesTooLarge)
                }
            },
        }
    } else if same(&k, "autostart") || same(&k, "start-on-launch") {
        cfg.start_clicking_on_launch = same(&v, "1") || same(&v, "true") || same(&v, "yes") || same(
            &v,
            "on",
        );
        Ok(())
    } else {
        Err(SettingError::UnknownSetting(string_of(&k)))
    }
}


proof fn lemma_dec_digits(n: u64)
    ensures
        dec(n).len() > 0,
        all_digits(dec(n)),
        digits_value(dec(n)) == n,
    decreases n,
{
    let d = n % 10;
    assert(crate::text::digit_char(d) as int == d + 48) by {
        assert(d < 10);
    }
    assert('0' as int == 48);
    if n >= 10 {
        lemma_dec_digits(n / 10);
        let p = dec(n / 10);
        let s = dec(n);
        assert(s == p.push(crate::text::digit_char(d)));
        assert(s.drop_last() =~= p);
        assert forall|i: int| 0 <= i < s.len() implies #[trigger] is_digit(s[i]) by {
            if i < p.len() {
                assert(s[i] == p[i]);
            }
        }
        assert(n == (n / 10) * 10 + d);
        assert(s.last() == crate::text::digit_char(d));
        assert(digits_value(s) == digits_value(p) * 10 + (s.last() as int - '0' as int) as nat);
        assert((s.last() as int - '0' as int) as nat == d);
        assert(digits_value(p) == n / 10);
        assert(digits_value(s) == (n / 10) * 10 + d);
    } else {
        assert(d == n);
        let s = dec(n);
        assert(s.last() == crate::text::digit_char(d));
        assert(digits_value(s.drop_last()) == 0);
        assert(digits_value(s) == digits_value(s.drop_last()) * 10 + (s.last() as int - '0' as int) as nat);
        assert(dec(n) == seq![crate::text::digit_char(n)]);
        assert(dec(n).drop_last() =~= Seq::<char>::empty());
    }
}

proof fn lemma_digits_unchanged(s: Seq<char>)
    requires
        s.len() > 0,
        all_digits(s),
    ensures
        trim(s) == s,
        lower(s) == s,
{
    assert(is_digit(s[0]));
    assert(is_digit(s[s.len() - 1]));
    assert(crate::text::trim_start(s) == s);
    assert(crate::text::trim_end(s) == s);
    assert(lower(s) =~= s) by {
        assert forall|i: int| 0 <= i < s.len() implies #[trigger] lower(s)[i] == s[i] by {
            assert(is_digit(s[i]));
        }
    }
}

/// Any whole number of minutes, written plainly, reads back as itself.
pub proof fn law_minutes_read_back(n: u32)
    requires
        n > 0,
    ensures
        duration_spec(dec(n as u64)) == Ok::<int, DurationErr>(n as int),
        !duration_overflows_spec(dec(n as u64)),
{
    lemma_dec_digits(n as u64);
    let s = dec(n as u64);
    lemma_digits_unchanged(s);
    assert(is_digit(s[0]));
    assert(parse_u32_spec(s) == Some(n));
}


// ---------------------------------------------------------------------------
// `shortcut list`
// ---------------------------------------------------------------------------

/// Rust's `str::to_lowercase` (full Unicode case mapping) of `s`.
pub uninterp spec fn unicode_lower(s: Seq<char>) -> Seq<char>;

/// `str::to_lowercase`: Unicode lower case; on ASCII text, ASCII lower case.
#[verifier::external_body]
fn to_lowercase(s: &str) -> (r: String)
    ensures
        r@ == unicode_lower(s@),
        all_ascii(s@) ==> r@ == lower(s@),
{
    s.to_lowercase()
}

/// Does a line pass the filter? Without one every line does; with one, the
/// line must contain it, ignoring case.
pub open spec fn passes(line: Seq<char>, filter: Option<Seq<char>>) -> bool {
    match filter {
        None => true,
        Some(f) => contains_seq(unicode_lower(line), unicode_lower(f)),
    }
}

/// The rows of one accelerator's group: the accelerator beside its first
/// owner, then one row per further owner.
pub open spec fn group_rows(a: (u8, Seq<char>), owners: Seq<OwnerV>) -> Seq<(Seq<char>, Seq<char>)> {
    seq![(to_display_spec(a.0, a.1), describe_owner(owners[0]))] + owners.drop_first().map_values(
        |o: OwnerV| (Seq::<char>::empty(), describe_owner(o)),
    )
}

/// The GNOME part of the list: the groups whose first line passes the filter.
pub open spec fn gnome_rows(
    groups: Seq<((u8, Seq<char>), Seq<OwnerV>)>,
    filter: Option<Seq<char>>,
) -> Seq<(Seq<char>, Seq<char>)>
    decreases groups.len(),
{
    if groups.len() == 0 {
        Seq::empty()
    } else {
        let g = groups.last();
        let line = to_display_spec(g.0.0, g.0.1) + "  "@ + describe_owner(g.1[0]);
        gnome_rows(groups.drop_last(), filter) + if passes(line, filter) {
            group_rows(g.0, g.1)
        } else {
            Seq::empty()
        }
    }
}

/// The keyd part of the list: the bindings whose description passes the filter.
pub open spec fn keyd_rows(found: Seq<keyd::Binding>, filter: Option<Seq<char>>) -> Seq<
    (Seq<char>, Seq<char>),
>
    decreases found.len(),
{
    if found.len() == 0 {
        Seq::empty()
    } else {
        let b = found.last();
        keyd_rows(found.drop_last(), filter) + if passes(keyd::describe_spec(b), filter) {
            seq![(to_display_spec(b.accel.mods.bits(), b.accel.key@), keyd::describe_spec(b))]
        } else {
            Seq::empty()
        }
    }
}

pub open spec fn group_views(groups: Seq<(Accel, Vec<Owner>)>) -> Seq<((u8, Seq<char>), Seq<OwnerV>)> {
    groups.map_values(|g: (Accel, Vec<Owner>)| (model(g.0), owner_views(g.1@)))
}

pub open spec fn row_views(rows: Seq<(String, String)>) -> Seq<(Seq<char>, Seq<char>)> {
    rows.map_values(|r: (String, String)| (r.0@, r.1@))
}

fn push_row(rows: &mut Vec<(String, String)>, left: String, right: String)
    ensures
        row_views(final(rows)@) == row_views(old(rows)@).push((left@, right@)),
{
    let ghost before = row_views(rows@);
    rows.push((left, right));
    assert(row_views(rows@) =~= before.push((left@, right@)));
}

/// What `shortcut list` prints, as (accelerator, owner) rows: the GNOME
/// bindings grouped by accelerator, then keyd's, keeping those that match
/// `filter` when there is one. No rows means nothing matched.
pub fn list_rows(
    groups: &[(Accel, Vec<Owner>)],
    keyd_found: &[keyd::Binding],
    filter: Option<&str>,
) -> (r: Vec<(String, String)>)
    requires
        forall|i: int| 0 <= i < groups@.len() ==> (#[trigger] groups@[i]).1@.len() > 0,
    ensures
        row_views(r@) == gnome_rows(
            group_views(groups@),
            match filter {
                Some(f) => Some(f@),
                None => None,
            },
        ) + keyd_rows(
            keyd_found@,
            match filter {
                Some(f) => Some(f@),
                None => None,
            },
        ),
{
    let ghost fv: Option<Seq<char>> = match filter {
        Some(f) => Some(f@),
        None => None,
    };
    let needle: Option<String> = match filter {
        Some(f) => Some(to_lowercase(f)),
        None => None,
    };
    let ghost gv = group_views(groups@);
    let mut rows: Vec<(String, String)> = Vec::new();
    let mut i: usize = 0;
    assert(gv.subrange(0, 0) =~= Seq::<((u8, Seq<char>), Seq<OwnerV>)>::empty());
    while i < groups.len()
        invariant
            i <= groups.len(),
            gv == group_views(groups@),
            forall|k: int| 0 <= k < groups@.len() ==> (#[trigger] groups@[k]).1@.len() > 0,
            fv == (match filter {
                Some(f) => Some(f@),
                None => None,
            }),
            needle matches Some(n) ==> fv matches Some(f) && n@ == unicode_lower(f),
            needle is None ==> fv is None,
            row_views(rows@) == gnome_rows(gv.subrange(0, i as int), fv),
        decreases groups.len() - i,
    {
        assert(gv.subrange(0, i + 1).drop_last() =~= gv.subrange(0, i as int));
        assert(gv[i as int] == (model(groups@[i as int].0), owner_views(groups@[i as int].1@)));
        let (accel, owners) = &groups[i];
        assert(owners@.len() > 0);
        let display = accel.to_display();
        let first = owners[0].describe();
        let mut line = chars_of(display.as_str());
        push_str(&mut line, "  ");
        push_all(&mut line, &chars_of(first.as_str()));
        let keep = match &needle {
            None => true,
            Some(n) => {
                let low = to_lowercase(string_of(&line).as_str());
                contains_lit(&chars_of(low.as_str()), n.as_str())
            },
        };
        let ghost before = row_views(rows@);
        if keep {
            push_row(&mut rows, display, first);
            let ghost ovs = owner_views(owners@);
            let mut j: usize = 1;
            assert(ovs.drop_first().subrange(0, 0) =~= Seq::<OwnerV>::empty());
            while j < owners.len()
                invariant
                    1 <= j <= owners.len(),
                    ovs == owner_views(owners@),
                    row_views(rows@) == before.push((to_display_spec(accel.mods.bits(), accel.key@), describe_owner(ovs[0])))
                        + ovs.drop_first().subrange(0, j - 1).map_values(
                        |o: OwnerV| (Seq::<char>::empty(), describe_owner(o)),
                    ),
                decreases owners.len() - j,
            {
                let ghost head = before.push((to_display_spec(accel.mods.bits(), accel.key@), describe_owner(ovs[0])));
                let ghost prev = ovs.drop_first().subrange(0, j - 1);
                let ghost next = ovs.drop_first().subrange(0, j as int);
                assert(next =~= prev.push(ovs[j as int]));
                assert(ovs[j as int] == owners@[j as int]@);
                let d = owners[j].describe();
                push_row(&mut rows, string_of(&Vec::new()), d);
                assert(next.map_values(|o: OwnerV| (Seq::<char>::empty(), describe_owner(o))) =~= prev.map_values(
                    |o: OwnerV| (Seq::<char>::empty(), describe_owner(o)),
                ).push((Seq::<char>::empty(), describe_owner(ovs[j as int]))));
                assert(row_views(rows@) =~= head + next.map_values(
                    |o: OwnerV| (Seq::<char>::empty(), describe_owner(o)),
                ));
                j = j + 1;
            }
            assert(ovs.drop_first().subrange(0, owners@.len() - 1) =~= ovs.drop_first());
            assert(row_views(rows@) =~= before + group_rows(gv[i as int].0, gv[i as int].1));
        } else {
            assert(before + Seq::<(Seq<char>, Seq<char>)>::empty() =~= before);
        }
        i = i + 1;
    }
    assert(gv.subrange(0, gv.len() as int) =~= gv);
    let ghost gnome_part = row_views(rows@);
    let mut k: usize = 0;
    assert(keyd_found@.subrange(0, 0) =~= Seq::<keyd::Binding>::empty());
    assert(gnome_part + keyd_rows(Seq::<keyd::Binding>::empty(), fv) =~= gnome_part);
    while k < keyd_found.len()
        invariant
            k <= keyd_found.len(),
            needle matches Some(n) ==> fv matches Some(f) && n@ == unicode_lower(f),
            needle is None ==> fv is None,
            row_views(rows@) == gnome_part + keyd_rows(keyd_found@.subrange(0, k as int), fv),
        decreases keyd_found.len() - k,
    {
        assert(keyd_found@.subrange(0, k + 1).drop_last() =~= keyd_found@.subrange(0, k as int));
        let b = &keyd_found[k];
        let line = b.describe();
        let keep = match &needle {
            None => true,
            Some(n) => {
                let low = to_lowercase(line.as_str());
                contains_lit(&chars_of(low.as_str()), n.as_str())
            },
        };
        let ghost before = row_views(rows@);
        if keep {
            push_row(&mut rows, b.accel.to_display(), line);
        }
        assert(row_views(rows@) =~= gnome_part + keyd_rows(keyd_found@.subrange(0, k + 1), fv));
        k = k + 1;
    }
    assert(keyd_found@.subrange(0, keyd_found@.len() as int) =~= keyd_found@);
    rows
}


// ---------------------------------------------------------------------------
// `shortcut set`
// ---------------------------------------------------------------------------

/// What `shortcut set` does with an accelerator others hold.
#[derive(Debug)]
pub enum Taking {
    /// Nothing else holds it.
    Free,
    /// Others hold it and `--force` was given: take it from them.
    Take,
    /// Others hold it and `--force` was not given: refuse, after printing
    /// these lines, which name what holds it.
    Refuse(Vec<String>),
}

/// The lines naming what holds an accelerator shown as `display`.
pub open spec fn held_by_lines(display: Seq<char>, holders: Seq<Seq<char>>) -> Seq<Seq<char>> {
    seq![display + " is taken by:"@] + holders.map_values(|d: Seq<char>| "    • "@ + d)
}

/// Decide for `accel` given the descriptions of what else holds it.
pub fn taking(accel: &Accel, holders: &[String], force: bool) -> (r: Taking)
    ensures
        holders@.len() == 0 ==> r is Free,
        holders@.len() > 0 && force ==> r is Take,
        holders@.len() > 0 && !force ==> (r matches Taking::Refuse(lines) && crate::shortcut::gvariant::texts(
            lines@,
        ) == held_by_lines(
            to_display_spec(accel.mods.bits(), accel.key@),
            crate::shortcut::gvariant::texts(holders@),
        )),
{
    if holders.len() == 0 {
        return Taking::Free;
    }
    if force {
        return Taking::Take;
    }
    let ghost hv = crate::shortcut::gvariant::texts(holders@);
    let ghost d = to_display_spec(accel.mods.bits(), accel.key@);
    let mut lines: Vec<String> = Vec::new();
    let mut first = chars_of(accel.to_display().as_str());
    push_str(&mut first, " is taken by:");
    lines.push(string_of(&first));
    let mut i: usize = 0;
    assert(crate::shortcut::gvariant::texts(lines@) =~= held_by_lines(d, hv.subrange(0, 0)));
    while i < holders.len()
        invariant
            i <= holders.len(),
            hv == crate::shortcut::gvariant::texts(holders@),
            crate::shortcut::gvariant::texts(lines@) == held_by_lines(d, hv.subrange(0, i as int)),
        decreases holders.len() - i,
    {
        let ghost before = crate::shortcut::gvariant::texts(lines@);
        let mut l = chars_of("    • ");
        push_all(&mut l, &chars_of(holders[i].as_str()));
        lines.push(string_of(&l));
        assert(hv[i as int] == holders@[i as int]@);
        assert(crate::shortcut::gvariant::texts(lines@) =~= before.push("    • "@ + hv[i as int]));
        assert(held_by_lines(d, hv.subrange(0, i + 1)) =~= held_by_lines(d, hv.subrange(0, i as int)).push(
            "    • "@ + hv[i as int],
        ));
        i = i + 1;
    }
    assert(hv.subrange(0, hv.len() as int) =~= hv);
    Taking::Refuse(lines)
}


proof fn lemma_setting_words()
    ensures
        "cpm"@ == seq!['c', 'p', 'm'],
        "clicks-per-minute"@.len() == 17,
        "button"@ == seq!['b', 'u', 't', 't', 'o', 'n'],
        "mode"@ == seq!['m', 'o', 'd', 'e'],
        "duration"@ == seq!['d', 'u', 'r', 'a', 't', 'i', 'o', 'n'],
        "hours"@ == seq!['h', 'o', 'u', 'r', 's'],
        "minutes"@ == seq!['m', 'i', 'n', 'u', 't', 'e', 's'],
        "autostart"@ == seq!['a', 'u', 't', 'o', 's', 't', 'a', 'r', 't'],
        "start-on-launch"@.len() == 15,
{
    reveal_strlit("cpm");
    reveal_strlit("clicks-per-minute");
    reveal_strlit("button");
    reveal_strlit("mode");
    reveal_strlit("duration");
    reveal_strlit("hours");
    reveal_strlit("minutes");
    reveal_strlit("autostart");
    reveal_strlit("start-on-launch");
}

/// Setting `autostart` (also spelled `start-on-launch`) always succeeds and
/// touches nothing but the flag: the flag is turned on exactly when the value,
/// trimmed and lower-cased, is `1`, `true`, `yes` or `on`, and off for any
/// other value, whatever it was before.
pub proof fn law_autostart_setting(
    click: ClickConfig,
    autostart: bool,
    key: Seq<char>,
    value: Seq<char>,
)
    requires
        lower(trim(key)) == "autostart"@ || lower(trim(key)) == "start-on-launch"@,
    ensures
        setting_spec(click, autostart, key, value) == Ok::<(ClickConfig, bool), SettingErr>(
            (
                click,
                ({
                    let v = lower(trim(value));
                    v == "1"@ || v == "true"@ || v == "yes"@ || v == "on"@
                }),
            ),
        ),
{
    lemma_setting_words();
    let k = lower(trim(key));
    if k == "autostart"@ {
        assert(k != "cpm"@ && k != "button"@ && k != "mode"@ && k != "duration"@ && k != "hours"@
            && k != "minutes"@ && k != "clicks-per-minute"@);
    } else {
        assert(k.len() == 15);
        assert(k != "cpm"@ && k != "button"@ && k != "mode"@ && k != "duration"@ && k != "hours"@
            && k != "minutes"@ && k != "clicks-per-minute"@);
    }
}


/// Setting `mode` switches between endless and timed runs and changes
/// nothing else: `endless` or `e` (in any case, around any whitespace) makes
/// runs endless, `timed` or `t` makes them timed, and any other value is
/// refused.
pub proof fn law_mode_setting(click: ClickConfig, autostart: bool, key: Seq<char>, value: Seq<char>)
    requires
        lower(trim(key)) == "mode"@,
    ensures
        ({
            let v = lower(trim(value));
            v == "endless"@ || v == "e"@
        }) ==> setting_spec(click, autostart, key, value) == Ok::<(ClickConfig, bool), SettingErr>(
            (
                (ClickConfig {
                    button: click.button,
                    cpm: click.cpm,
                    mode: ClickMode::Endless,
                    duration_minutes: click.duration_minutes,
                }),
                autostart,
            ),
        ),
        ({
            let v = lower(trim(value));
            v == "timed"@ || v == "t"@
        }) ==> setting_spec(click, autostart, key, value) == Ok::<(ClickConfig, bool), SettingErr>(
            (
                (ClickConfig {
                    button: click.button,
                    cpm: click.cpm,
                    mode: ClickMode::Timed,
                    duration_minutes: click.duration_minutes,
                }),
                autostart,
            ),
        ),
        ({
            let v = lower(trim(value));
            v != "endless"@ && v != "e"@ && v != "timed"@ && v != "t"@
        }) ==> setting_spec(click, autostart, key, value) == Err::<(ClickConfig, bool), SettingErr>(
            SettingErr::BadMode,
        ),
{
    lemma_setting_words();
    reveal_strlit("endless");
    reveal_strlit("e");
    reveal_strlit("timed");
    reveal_strlit("t");
    let k = lower(trim(key));
    assert(k != "cpm"@ && k != "button"@ && k != "clicks-per-minute"@);
}

/// Setting `cpm` (also `clicks-per-minute`) takes the value as a whole number
/// and changes only the rate: a number outside `MIN_CPM..=MAX_CPM` is refused
/// as out of range, and a value that is not a number as not a number.
pub proof fn law_cpm_setting(click: ClickConfig, autostart: bool, key: Seq<char>, value: Seq<char>)
    requires
        lower(trim(key)) == "cpm"@ || lower(trim(key)) == "clicks-per-minute"@,
    ensures
        setting_spec(click, autostart, key, value) == match parse_u32_spec(value) {
            None => Err::<(ClickConfig, bool), SettingErr>(SettingErr::CpmNotNumber),
            Some(n) => if MIN_CPM <= n && n <= MAX_CPM {
                Ok(
                    (
                        (ClickConfig {
                            button: click.button,
                            cpm: n,
                            mode: click.mode,
                            duration_minutes: click.duration_minutes,
                        }),
                        autostart,
                    ),
                )
            } else {
                Err(SettingErr::CpmOutOfRange)
            },
        },
{
}

/// A setting whose name is none of those `config set` knows is refused,
/// naming the setting as it was read (trimmed and lower-cased).
pub proof fn law_unknown_setting(click: ClickConfig, autostart: bool, key: Seq<char>, value: Seq<char>)
    requires
        ({
            let k = lower(trim(key));
            &&& k != "cpm"@ && k != "clicks-per-minute"@ && k != "button"@ && k != "mode"@
            &&& k != "duration"@ && k != "hours"@ && k != "minutes"@
            &&& k != "autostart"@ && k != "start-on-launch"@
        }),
    ensures
        setting_spec(click, autostart, key, value) == Err::<(ClickConfig, bool), SettingErr>(
            SettingErr::UnknownSetting(lower(trim(key))),
        ),
{
}

} // verus!
