//! What the terminal wizard and the shortcut commands decide from an answer:
//! reading each reply, choosing defaults, and judging a typed shortcut.
use vstd::prelude::*;
use crate::accel::{model, parse_spec, to_gtk_spec, validate_ok, Accel, AccelErr, AccelError};
use crate::cli::{parse_u32, parse_u32_spec};
use crate::config::{binding_models, ClickConfig, ClickMode, ShortcutBackend, MAX_CPM, MIN_CPM};
use crate::shortcut::BackendStatus;
use crate::text::{
    chars_of, dec, dec2, lower, lower_chars, push_all, push_dec, push_dec2, push_str, same,
    string_of, trim, trim_chars,
};

verus! {

/// What a prompt yields: the trimmed reply, or the default for a blank reply
/// or the end of input (`None`).
pub open spec fn answer_spec(line: Option<Seq<char>>, default: Seq<char>) -> Seq<char> {
    match line {
        None => default,
        Some(l) => if trim(l).len() == 0 {
            default
        } else {
            trim(l)
        },
    }
}

pub fn prompt_answer(line: Option<&str>, default: &str) -> (r: String)
    ensures
        r@ == answer_spec(
            match line {
                Some(l) => Some(l@),
                None => None,
            },
            default@,
        ),
{
    match line {
        None => string_of(&chars_of(default)),
        Some(l) => {
            let t = trim_chars(&chars_of(l));
            if t.len() == 0 {
                string_of(&chars_of(default))
            } else {
                string_of(&t)
            }
        },
    }
}

/// A yes/no reply: blank takes the default, `y`/`yes` and `n`/`no` in any
/// case decide, anything else asks again (`None`).
pub open spec fn yes_no_spec(answer: Seq<char>, default_yes: bool) -> Option<bool> {
    let a = lower(trim(answer));
    if a.len() == 0 {
        Some(default_yes)
    } else if a == "y"@ || a == "yes"@ {
        Some(true)
    } else if a == "n"@ || a == "no"@ {
        Some(false)
    } else {
        None
    }
}

pub fn yes_no(answer: &str, default_yes: bool) -> (r: Option<bool>)
    ensures
        r == yes_no_spec(answer@, default_yes),
{
    let a = lower_chars(&trim_chars(&chars_of(answer)));
    if a.len() == 0 {
        Some(default_yes)
    } else if same(&a, "y") || same(&a, "yes") {
        Some(true)
    } else if same(&a, "n") || same(&a, "no") {
        Some(false)
    } else {
        None
    }
}

/// A clicks-per-minute reply: a whole number in range, or what to tell the user.
pub open spec fn cpm_answer_spec(raw: Seq<char>) -> Result<u32, Seq<char>> {
    match parse_u32_spec(raw) {
        Some(v) => if MIN_CPM <= v <= MAX_CPM {
            Ok(v)
        } else {
            Err("  Enter a number between "@ + dec(MIN_CPM as u64) + " and "@ + dec(MAX_CPM as u64)
                + "."@)
        },
        None => Err("  That is not a number."@),
    }
}

pub fn cpm_answer(raw: &str) -> (r: Result<u32, String>)
    ensures
        match cpm_answer_spec(raw@) {
            Ok(v) => r matches Ok(x) && x == v,
            Err(m) => r matches Err(x) && x@ == m,
        },
{
    match parse_u32(&chars_of(raw)) {
        Some(v) => {
            if MIN_CPM <= v && v <= MAX_CPM {
                Ok(v)
            } else {
                let mut out: Vec<char> = Vec::new();
                push_str(&mut out, "  Enter a number between ");
                push_dec(&mut out, MIN_CPM as u64);
                push_str(&mut out, " and ");
                push_dec(&mut out, MAX_CPM as u64);
                push_str(&mut out, ".");
                Err(string_of(&out))
            }
        },
        None => Err(string_of(&chars_of("  That is not a number."))),
    }
}

/// A mode reply: `endless`/`e` or `timed`/`t`, in any case.
pub open spec fn mode_answer_spec(raw: Seq<char>) -> Option<ClickMode> {
    let a = lower(trim(raw));
    if a == "endless"@ || a == "e"@ {
        Some(ClickMode::Endless)
    } else if a == "timed"@ || a == "t"@ {
        Some(ClickMode::Timed)
    } else {
        None
    }
}

pub fn mode_answer(raw: &str) -> (r: Option<ClickMode>)
    ensures
        r == mode_answer_spec(raw@),
{
    let a = lower_chars(&trim_chars(&chars_of(raw)));
    if same(&a, "endless") || same(&a, "e") {
        Some(ClickMode::Endless)
    } else if same(&a, "timed") || same(&a, "t") {
        Some(ClickMode::Timed)
    } else {
        None
    }
}

/// Hours of a timed run, 0 to 24.
pub fn hours_answer(raw: &str) -> (r: Option<u32>)
    ensures
        r == (match parse_u32_spec(raw@) {
            Some(v) => if v <= 24 {
                Some(v)
            } else {
                None
            },
            None => None,
        }),
{
    match parse_u32(&chars_of(raw)) {
        Some(v) => if v <= 24 {
            Some(v)
        } else {
            None
        },
        None => None,
    }
}

/// Minutes of a timed run, 0 to 59.
pub fn minutes_answer(raw: &str) -> (r: Option<u32>)
    ensures
        r == (match parse_u32_spec(raw@) {
            Some(v) => if v < 60 {
                Some(v)
            } else {
                None
            },
            None => None,
        }),
{
    match parse_u32(&chars_of(raw)) {
        Some(v) => if v < 60 {
            Some(v)
        } else {
            None
        },
        None => None,
    }
}

/// The backend offered first: the first usable one that is not "none", else "none".
pub open spec fn default_backend_spec(s: Seq<BackendStatus>) -> ShortcutBackend
    decreases s.len(),
{
    if s.len() == 0 {
        ShortcutBackend::Off
    } else if s[0].available && s[0].backend != ShortcutBackend::Off {
        s[0].backend
    } else {
        default_backend_spec(s.drop_first())
    }
}

pub fn default_backend(statuses: &[BackendStatus]) -> (b: ShortcutBackend)
    ensures
        b == default_backend_spec(statuses@),
{
    let mut i: usize = 0;
    assert(statuses@.subrange(0, statuses@.len() as int) =~= statuses@);
    while i < statuses.len()
        invariant
            i <= statuses.len(),
            default_backend_spec(statuses@) == default_backend_spec(
                statuses@.subrange(i as int, statuses@.len() as int),
            ),
        decreases statuses.len() - i,
    {
        let ghost rest = statuses@.subrange(i as int, statuses@.len() as int);
        assert(rest[0] == statuses@[i as int]);
        if statuses[i].available && statuses[i].backend != ShortcutBackend::Off {
            return statuses[i].backend;
        }
        assert(rest.drop_first() =~= statuses@.subrange(i + 1, statuses@.len() as int));
        i = i + 1;
    }
    ShortcutBackend::Off
}

/// The backend a `shortcut set` installs with: the one asked for, else the
/// configured one, and GNOME rather than none.
pub fn chosen_backend(configured: ShortcutBackend, requested: Option<ShortcutBackend>) -> (b:
    ShortcutBackend)
    ensures
        ({
            let c = match requested {
                Some(r) => r,
                None => configured,
            };
            b == if c == ShortcutBackend::Off {
                ShortcutBackend::Gnome
            } else {
                c
            }
        }),
{
    let c = match requested {
        Some(r) => r,
        None => configured,
    };
    if c == ShortcutBackend::Off {
        ShortcutBackend::Gnome
    } else {
        c
    }
}

/// How long a run lasts, for the wizard's last words.
pub open spec fn run_length_spec(click: ClickConfig) -> Seq<char> {
    match click.mode {
        ClickMode::Endless => "until you toggle it off"@,
        ClickMode::Timed => "for "@ + dec((click.duration_minutes / 60) as u64) + "h "@ + dec2(
            (click.duration_minutes % 60) as u64,
        ) + "m"@,
    }
}

pub fn run_length_text(click: &ClickConfig) -> (s: String)
    ensures
        s@ == run_length_spec(*click),
{
    match click.mode {
        ClickMode::Endless => string_of(&chars_of("until you toggle it off")),
        ClickMode::Timed => {
            let (h, m) = click.duration_hm();
            let mut out: Vec<char> = Vec::new();
            push_str(&mut out, "for ");
            push_dec(&mut out, h as u64);
            push_str(&mut out, "h ");
            push_dec2(&mut out, m as u64);
            push_str(&mut out, "m");
            string_of(&out)
        },
    }
}

/// The shortcut the wizard offers first: the first configured one, or Super+Shift+C.
pub fn shortcut_default(current: &[Accel]) -> (s: String)
    ensures
        current@.len() > 0 ==> s@ == to_gtk_spec(current@[0].mods.bits(), current@[0].key@),
        current@.len() == 0 ==> s@ == "<Super><Shift>c"@,
{
    if current.len() > 0 {
        current[0].to_gtk()
    } else {
        string_of(&chars_of("<Super><Shift>c"))
    }
}

/// What a typed shortcut amounts to.
#[derive(Debug)]
pub enum BindingAnswer {
    /// A blank reply after at least one shortcut: done.
    Finish,
    /// A blank reply before any shortcut: at least one is needed.
    NeedOne,
    /// Not a shortcut that can be bound, and why.
    Rejected(AccelError),
    /// Already chosen.
    Duplicate,
    /// A new shortcut, still to be checked against the desktop.
    Candidate(Accel),
}

/// Judge a typed shortcut against those already chosen.
pub fn binding_answer(raw: &str, chosen: &[Accel]) -> (r: BindingAnswer)
    ensures
        trim(raw@).len() == 0 ==> (if chosen@.len() == 0 {
            r is NeedOne
        } else {
            r is Finish
        }),
        trim(raw@).len() > 0 ==> match parse_spec(raw@) {
            Err(e) => r matches BindingAnswer::Rejected(x) && x@ == e,
            Ok(m) => if !validate_ok(m.0, m.1) {
                r matches BindingAnswer::Rejected(x) && x@ == AccelErr::NeedsModifier(
                    to_gtk_spec(m.0, m.1),
                )
            } else if binding_models(chosen@).contains(m) {
                r is Duplicate
            } else {
                r matches BindingAnswer::Candidate(a) && model(a) == m
            },
        },
{
    let t = trim_chars(&chars_of(raw));
    if t.len() == 0 {
        return if chosen.len() == 0 {
            BindingAnswer::NeedOne
        } else {
            BindingAnswer::Finish
        };
    }
    match Accel::parse(raw) {
        Err(e) => BindingAnswer::Rejected(e),
        Ok(a) => {
            match a.validate() {
                Err(e) => BindingAnswer::Rejected(e),
                Ok(()) => {
                    let mut i: usize = 0;
                    while i < chosen.len()
                        invariant
                            i <= chosen.len(),
                            trim(raw@).len() > 0,
                            parse_spec(raw@) == Ok::<(u8, Seq<char>), crate::accel::AccelErr>(
                                model(a),
                            ),
                            validate_ok(a.mods.bits(), a.key@),
                            forall|j: int| 0 <= j < i ==> binding_models(chosen@)[j] != model(a),
                        decreases chosen.len() - i,
                    {
                        assert(binding_models(chosen@)[i as int] == model(chosen@[i as int]));
                        proof {
                            if chosen@[i as int].mods.bits() == a.mods.bits() {
                                crate::accel::Modifiers::lemma_bits_eq(chosen@[i as int].mods, a.mods);
                            }
                        }
                        if chosen[i] == a {
                            assert(binding_models(chosen@).contains(model(a)));
                            return BindingAnswer::Duplicate;
                        }
                        i = i + 1;
                    }
                    BindingAnswer::Candidate(a)
                },
            }
        },
    }
}

/// Did the shortcut read back as configured? Exactly the same accelerators,
/// in the same order.
pub fn reads_back(installed: &[Accel], expected: &[Accel]) -> (b: bool)
    ensures
        b == (binding_models(installed@) == binding_models(expected@)),
{
    if installed.len() != expected.len() {
        proof {
            assert(binding_models(installed@).len() != binding_models(expected@).len());
        }
        return false;
    }
    let mut i: usize = 0;
    while i < installed.len()
        invariant
            i <= installed.len(),
            installed.len() == expected.len(),
            forall|j: int| 0 <= j < i ==> binding_models(installed@)[j] == binding_models(expected@)[j],
        decreases installed.len() - i,
    {
        assert(binding_models(installed@)[i as int] == model(installed@[i as int]));
        assert(binding_models(expected@)[i as int] == model(expected@[i as int]));
        proof {
            if installed@[i as int].mods.bits() == expected@[i as int].mods.bits() {
                crate::accel::Modifiers::lemma_bits_eq(installed@[i as int].mods, expected@[i as int].mods);
            }
        }
        if installed[i] != expected[i] {
            return false;
        }
        i = i + 1;
    }
    assert(binding_models(installed@) =~= binding_models(expected@));
    true
}

} // verus!
