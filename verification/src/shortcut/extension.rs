//! The GNOME Shell extension shortcut backend.
//!
//! The extension registers the accelerator with the compositor directly, which
//! is the most reliable way to get a global key on Wayland. All RatClick does
//! is write the accelerators into the extension's own gsettings schema; the
//! extension picks the change up live.
use vstd::prelude::*;
use crate::accel::{accel_wf, model, ok_parts, parse_spec, to_gtk_spec, Accel};
use crate::accel_laws::law_gtk_roundtrip;
use crate::config::binding_models;
use crate::shortcut::gnome::{opt_view, parsed_accels, wview, Write};
use crate::shortcut::gvariant::{
    law_format_parse_roundtrip, format_string_list, format_string_list_spec, parse_string_list, parse_string_list_spec, texts,
};
use crate::text::{
    chars_of, lines, lines_of, lower, lower_chars, push_all, push_str, same, slice,
    starts_with, starts_with_lit, string_of, trim, trim_chars, views,
};

verus! {

pub const UUID: &'static str = "ratclick@dixonsolutions.github.io";

pub const SCHEMA: &'static str = "org.gnome.shell.extensions.ratclick";

pub const KEY: &'static str = "toggle-clicking";

/// Whether the extension can hold the shortcut, and why not when it cannot.
#[derive(Debug, Clone, PartialEq, Eq)]
pub struct Status {
    pub is_available: bool,
    pub detail: String,
}

/// The extension is usable when its schema is installed *and* it is enabled —
/// an installed but disabled extension does not register the key.
/// `enabled` is what [`enabled_state`] found, `None` when it could not ask.
pub open spec fn availability_spec(schema_installed: bool, enabled: Option<bool>) -> (bool, Seq<char>) {
    if !schema_installed {
        (false, "the RatClick GNOME Shell extension is not installed"@)
    } else {
        match enabled {
            Some(true) => (true, "RatClick Shell extension is enabled"@),
            Some(false) => (
                false,
                "extension installed but disabled (`gnome-extensions enable "@ + UUID@ + "`)"@,
            ),
            None => (false, "could not query gnome-extensions"@),
        }
    }
}

pub fn availability(schema_installed: bool, enabled: Option<bool>) -> (s: Status)
    ensures
        (s.is_available, s.detail@) == availability_spec(schema_installed, enabled),
{
    if !schema_installed {
        return Status {
            is_available: false,
            detail: string_of(&chars_of("the RatClick GNOME Shell extension is not installed")),
        };
    }
    match enabled {
        Some(true) => Status {
            is_available: true,
            detail: string_of(&chars_of("RatClick Shell extension is enabled")),
        },
        Some(false) => {
            let mut out: Vec<char> = Vec::new();
            push_str(&mut out, "extension installed but disabled (`gnome-extensions enable ");
            push_str(&mut out, UUID);
            push_str(&mut out, "`)");
            Status { is_available: false, detail: string_of(&out) }
        },
        None => Status {
            is_available: false,
            detail: string_of(&chars_of("could not query gnome-extensions")),
        },
    }
}

/// The `State:` a `gnome-extensions info` report gives, from its first line
/// that has one; `false` when none does.
pub open spec fn state_enabled(ls: Seq<Seq<char>>) -> bool
    decreases ls.len(),
{
    if ls.len() == 0 {
        false
    } else {
        let t = trim(ls[0]);
        if starts_with(t, "State:"@) {
            lower(trim(t.subrange(6, t.len() as int))) == "enabled"@
        } else {
            state_enabled(ls.drop_first())
        }
    }
}

/// Whether the extension is enabled, from running `gnome-extensions info`:
/// `None` when it could not be run, `false` when it failed, otherwise what
/// the report's `State:` line says.
pub fn enabled_state(ran: bool, succeeded: bool, stdout: &str) -> (r: Option<bool>)
    ensures
        !ran ==> r is None,
        ran && !succeeded ==> r == Some(false),
        ran && succeeded ==> r == Some(state_enabled(lines(stdout@))),
{
    if !ran {
        return None;
    }
    if !succeeded {
        return Some(false);
    }
    let ls = lines_of(&chars_of(stdout));
    let ghost lv = views(ls@);
    let mut i: usize = 0;
    assert(lv.subrange(0, lv.len() as int) =~= lv);
    while i < ls.len()
        invariant
            i <= ls.len(),
            ran,
            succeeded,
            lv == views(ls@),
            lv == lines(stdout@),
            state_enabled(lv) == state_enabled(lv.subrange(i as int, lv.len() as int)),
        decreases ls.len() - i,
    {
        let ghost rest = lv.subrange(i as int, lv.len() as int);
        assert(rest[0] == ls@[i as int]@);
        let t = trim_chars(&ls[i]);
        if starts_with_lit(&t, "State:") {
            proof {
                reveal_strlit("State:");
            }
            let v = lower_chars(&trim_chars(&slice(&t, 6, t.len())));
            return Some(same(&v, "enabled"));
        }
        assert(rest.drop_first() =~= lv.subrange(i + 1, lv.len() as int));
        i = i + 1;
    }
    Some(false)
}

/// Why the extension's settings could not be written.
#[derive(Debug, Clone, PartialEq, Eq)]
pub enum ExtensionError {
    /// The extension's settings schema is not installed.
    SchemaMissing,
}

impl ExtensionError {
    pub fn message(&self) -> (s: String)
        ensures
            s@ == "the RatClick Shell extension's settings schema is not installed"@,
    {
        string_of(&chars_of("the RatClick Shell extension's settings schema is not installed"))
    }
}

pub open spec fn gtk_names(accels: Seq<(u8, Seq<char>)>) -> Seq<Seq<char>> {
    accels.map_values(|a: (u8, Seq<char>)| to_gtk_spec(a.0, a.1))
}

/// Installing `accels` writes them, in GTK syntax, to the extension's key;
/// refused when its schema is not installed.
pub fn install(schema_installed: bool, accels: &[Accel]) -> (r: Result<Write, ExtensionError>)
    ensures
        !schema_installed ==> r is Err,
        schema_installed ==> (r matches Ok(w) && wview(w) == (
            SCHEMA@,
            KEY@,
            format_string_list_spec(gtk_names(binding_models(accels@))),
        )),
{
    if !schema_installed {
        return Err(ExtensionError::SchemaMissing);
    }
    let ghost models = binding_models(accels@);
    let mut list: Vec<String> = Vec::new();
    let mut i: usize = 0;
    while i < accels.len()
        invariant
            i <= accels.len(),
            models == binding_models(accels@),
            texts(list@) == gtk_names(models.subrange(0, i as int)),
        decreases accels.len() - i,
    {
        assert(models[i as int] == model(accels@[i as int]));
        let ghost before = texts(list@);
        list.push(accels[i].to_gtk());
        assert(texts(list@) =~= before.push(to_gtk_spec(models[i as int].0, models[i as int].1)));
        assert(gtk_names(models.subrange(0, i + 1)) =~= gtk_names(models.subrange(0, i as int)).push(
            to_gtk_spec(models[i as int].0, models[i as int].1),
        ));
        i = i + 1;
    }
    assert(models.subrange(0, models.len() as int) =~= models);
    Ok(
        Write {
            schema: string_of(&chars_of(SCHEMA)),
            key: string_of(&chars_of(KEY)),
            value: format_string_list(&list),
        },
    )
}

/// Uninstalling empties the extension's key; nothing is written when its
/// schema is not installed.
pub fn uninstall(schema_installed: bool) -> (r: Option<Write>)
    ensures
        !schema_installed ==> r is None,
        schema_installed ==> (r matches Some(w) && wview(w) == (SCHEMA@, KEY@, "@as []"@)),
{
    if !schema_installed {
        return None;
    }
    Some(
        Write {
            schema: string_of(&chars_of(SCHEMA)),
            key: string_of(&chars_of(KEY)),
            value: string_of(&chars_of("@as []")),
        },
    )
}

/// The accelerators the extension holds, from what `gsettings get` printed
/// for its key (`None` when that failed); none when its schema is missing.
pub fn installed(schema_installed: bool, value: Option<&str>) -> (r: Vec<Accel>)
    ensures
        !schema_installed ==> r@.len() == 0,
        schema_installed && value is None ==> r@.len() == 0,
        schema_installed ==> (value matches Some(v) ==> binding_models(r@) == parsed_accels(
            parse_string_list_spec(v@),
        )),
{
    if !schema_installed {
        return Vec::new();
    }
    match value {
        None => Vec::new(),
        Some(v) => {
            let raws = parse_string_list(v);
            let ghost rv = texts(raws@);
            let mut out: Vec<Accel> = Vec::new();
            let mut i: usize = 0;
            assert(rv.subrange(0, 0) =~= Seq::<Seq<char>>::empty());
            while i < raws.len()
                invariant
                    i <= raws.len(),
                    rv == texts(raws@),
                    binding_models(out@) == parsed_accels(rv.subrange(0, i as int)),
                decreases raws.len() - i,
            {
                assert(rv.subrange(0, i + 1).drop_last() =~= rv.subrange(0, i as int));
                assert(rv[i as int] == raws@[i as int]@);
                let ghost before = binding_models(out@);
                match Accel::parse(raws[i].as_str()) {
                    Ok(a) => {
                        out.push(a);
                        assert(binding_models(out@) =~= before.push(model(a)));
                    },
                    Err(_) => {},
                }
                i = i + 1;
            }
            assert(rv.subrange(0, rv.len() as int) =~= rv);
            out
        },
    }
}


/// What the extension reads back is what was installed: parsing the value
/// written for well-formed accelerators gives the same accelerators, in order.
pub proof fn law_installed_reads_back(accels: Seq<Accel>)
    requires
        forall|i: int| 0 <= i < accels.len() ==> accel_wf(#[trigger] accels[i]),
    ensures
        parsed_accels(
            parse_string_list_spec(format_string_list_spec(gtk_names(binding_models(accels)))),
        ) == binding_models(accels),
    decreases accels.len(),
{
    let names = gtk_names(binding_models(accels));
    law_format_parse_roundtrip(names);
    if accels.len() > 0 {
        let front = accels.drop_last();
        assert forall|i: int| 0 <= i < front.len() implies accel_wf(#[trigger] front[i]) by {
            assert(front[i] == accels[i]);
        }
        law_installed_reads_back(front);
        law_format_parse_roundtrip(gtk_names(binding_models(front)));
        assert(binding_models(front) =~= binding_models(accels).drop_last());
        assert(names.drop_last() =~= gtk_names(binding_models(front)));
        let a = accels.last();
        assert(accel_wf(accels[accels.len() - 1]));
        law_gtk_roundtrip(a);
        assert(names.last() == to_gtk_spec(a.mods.bits(), a.key@));
        assert(binding_models(front).push(model(a)) =~= binding_models(accels));
    } else {
        assert(binding_models(accels) =~= Seq::<(u8, Seq<char>)>::empty());
    }
}

} // verus!
