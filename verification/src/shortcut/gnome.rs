//! The GNOME (gsettings) shortcut backend.
//!
//! RatClick's toggle is installed as a GNOME *custom keybinding* — the same
//! thing Settings ▸ Keyboard ▸ Custom Shortcuts creates — and every schema
//! GNOME keeps keybindings in is scanned so the user learns what a shortcut
//! would collide with before it is taken.
//!
//! Running `gsettings` happens outside this crate. Here is what is decided from
//! what it prints: which accelerators are bound and by whom, what a steal or
//! an install writes, and what is ours.
use vstd::prelude::*;
use crate::accel::{model, parse_spec, to_gtk_spec, Accel, AccelError, Modifiers};
use crate::config::binding_models;
use crate::shortcut::gvariant::{
    format_string, format_string_list, format_string_list_spec, parse_string_list,
    parse_string_list_spec, quote_spec, texts,
};
use crate::text::{
    chars_of, contains_lit, contains_seq, dec, find_char, first_index, lex_lt, lines, lines_of,
    push_all, push_dec, push_str, replace_char, replace_chars, same, slice, string_of, views,
};

verus! {

pub const MEDIA_KEYS_SCHEMA: &'static str = "org.gnome.settings-daemon.plugins.media-keys";

pub const CUSTOM_SCHEMA: &'static str =
    "org.gnome.settings-daemon.plugins.media-keys.custom-keybinding";

pub const CUSTOM_PATH_ROOT: &'static str =
    "/org/gnome/settings-daemon/plugins/media-keys/custom-keybindings";

/// Custom-keybinding paths holding this are RatClick's own.
pub const OUR_PATH_PREFIX: &'static str = "ratclick";

/// The schemas that hold keyboard shortcuts, scanned in this order so the
/// most recognisable owner (window manager, then shell) is reported first.
pub fn keybinding_schemas() -> (r: Vec<&'static str>)
    ensures
        r@.len() == 5,
        r@[0]@ == "org.gnome.desktop.wm.keybindings"@,
        r@[1]@ == "org.gnome.shell.keybindings"@,
        r@[2]@ == "org.gnome.mutter.keybindings"@,
        r@[3]@ == "org.gnome.mutter.wayland.keybindings"@,
        r@[4]@ == MEDIA_KEYS_SCHEMA@,
{
    let mut r: Vec<&'static str> = Vec::new();
    r.push("org.gnome.desktop.wm.keybindings");
    r.push("org.gnome.shell.keybindings");
    r.push("org.gnome.mutter.keybindings");
    r.push("org.gnome.mutter.wayland.keybindings");
    r.push(MEDIA_KEYS_SCHEMA);
    r
}

/// Where a bound accelerator lives.
#[derive(Debug)]
pub enum Owner {
    /// A plain `schema key` pair holding an array of accelerators.
    Setting { schema: String, key: String },
    /// A custom keybinding, identified by its dconf path.
    Custom { path: String, name: String, command: String },
}

/// An [`Owner`] with its text as characters.
pub enum OwnerV {
    Setting(Seq<char>, Seq<char>),
    Custom(Seq<char>, Seq<char>, Seq<char>),
}

impl View for Owner {
    type V = OwnerV;

    open spec fn view(&self) -> OwnerV {
        match self {
            Owner::Setting { schema, key } => OwnerV::Setting(schema@, key@),
            Owner::Custom { path, name, command } => OwnerV::Custom(path@, name@, command@),
        }
    }
}

impl Clone for Owner {
    fn clone(&self) -> (r: Self)
        ensures
            r == *self,
    {
        match self {
            Owner::Setting { schema, key } => Owner::Setting {
                schema: schema.clone(),
                key: key.clone(),
            },
            Owner::Custom { path, name, command } => Owner::Custom {
                path: path.clone(),
                name: name.clone(),
                command: command.clone(),
            },
        }
    }
}

/// The area of the desktop a keybinding schema belongs to.
pub open spec fn area_spec(schema: Seq<char>) -> Seq<char> {
    if schema == "org.gnome.desktop.wm.keybindings"@ {
        "Window management"@
    } else if schema == "org.gnome.shell.keybindings"@ {
        "GNOME Shell"@
    } else if schema == "org.gnome.mutter.keybindings"@ || schema
        == "org.gnome.mutter.wayland.keybindings"@ {
        "Mutter"@
    } else if schema == MEDIA_KEYS_SCHEMA@ {
        "System shortcuts"@
    } else {
        "GNOME"@
    }
}

pub open spec fn describe_owner(o: OwnerV) -> Seq<char> {
    match o {
        OwnerV::Setting(schema, key) => area_spec(schema) + ": "@ + replace_char(key, '-', ' '),
        OwnerV::Custom(_, name, command) => if name.len() == 0 {
            "Custom shortcut: "@ + command
        } else {
            "Custom shortcut “"@ + name + "” ("@ + command + ")"@
        },
    }
}

/// Is this one of RatClick's own custom keybindings?
pub open spec fn is_ours_spec(o: OwnerV) -> bool {
    match o {
        OwnerV::Custom(path, _, _) => contains_seq(path, OUR_PATH_PREFIX@),
        OwnerV::Setting(_, _) => false,
    }
}

impl Owner {
    /// Human-readable description for conflict messages.
    pub fn describe(&self) -> (s: String)
        ensures
            s@ == describe_owner(self@),
    {
        let mut out: Vec<char> = Vec::new();
        match self {
            Owner::Setting { schema, key } => {
                let sc = chars_of(schema.as_str());
                if same(&sc, "org.gnome.desktop.wm.keybindings") {
                    push_str(&mut out, "Window management");
                } else if same(&sc, "org.gnome.shell.keybindings") {
                    push_str(&mut out, "GNOME Shell");
                } else if same(&sc, "org.gnome.mutter.keybindings") || same(
                    &sc,
                    "org.gnome.mutter.wayland.keybindings",
                ) {
                    push_str(&mut out, "Mutter");
                } else if same(&sc, MEDIA_KEYS_SCHEMA) {
                    push_str(&mut out, "System shortcuts");
                } else {
                    push_str(&mut out, "GNOME");
                }
                push_str(&mut out, ": ");
                push_all(&mut out, &replace_chars(&chars_of(key.as_str()), '-', ' '));
            },
            Owner::Custom { name, command, .. } => {
                if name.unicode_len() == 0 {
                    push_str(&mut out, "Custom shortcut: ");
                    push_all(&mut out, &chars_of(command.as_str()));
                } else {
                    push_str(&mut out, "Custom shortcut “");
                    push_all(&mut out, &chars_of(name.as_str()));
                    push_str(&mut out, "” (");
                    push_all(&mut out, &chars_of(command.as_str()));
                    push_str(&mut out, ")");
                }
            },
        }
        string_of(&out)
    }

    /// Whether this binding is one RatClick installed itself.
    pub fn is_ours(&self) -> (b: bool)
        ensures
            b == is_ours_spec(self@),
    {
        match self {
            Owner::Custom { path, .. } => contains_lit(&chars_of(path.as_str()), OUR_PATH_PREFIX),
            Owner::Setting { .. } => false,
        }
    }
}

/// The gsettings backend is usable when `gsettings` can be found and the
/// media-keys schema is installed.
pub fn is_available(gsettings_found: bool, media_keys_schema_installed: bool) -> (b: bool)
    ensures
        b == (gsettings_found && media_keys_schema_installed),
{
    gsettings_found && media_keys_schema_installed
}

/// One accelerator that some part of the desktop has already claimed.
#[derive(Debug)]
pub struct Binding {
    pub accel: Accel,
    /// Where it lives, for both display and for taking it away again.
    pub owner: Owner,
}

impl Clone for Binding {
    fn clone(&self) -> (r: Self)
        ensures
            r == *self,
    {
        Binding { accel: self.accel.clone(), owner: self.owner.clone() }
    }
}

/// What a binding says: the accelerator and its owner.
pub open spec fn gentry(b: Binding) -> ((u8, Seq<char>), OwnerV) {
    (model(b.accel), b.owner@)
}

pub open spec fn gentries(v: Seq<Binding>) -> Seq<((u8, Seq<char>), OwnerV)> {
    v.map_values(|b: Binding| gentry(b))
}

/// The gsettings schema of one custom keybinding.
pub open spec fn custom_schema_spec(path: Seq<char>) -> Seq<char> {
    CUSTOM_SCHEMA@ + ":"@ + path
}

pub fn custom_schema_for(path: &str) -> (s: String)
    ensures
        s@ == custom_schema_spec(path@),
{
    let mut out: Vec<char> = Vec::new();
    push_str(&mut out, CUSTOM_SCHEMA);
    push_str(&mut out, ":");
    push_all(&mut out, &chars_of(path));
    string_of(&out)
}

/// The user's custom-keybinding paths from what `gsettings get` printed for
/// the list, or `None` when it could not be read.
///
/// The distinction matters: installing rewrites this list, so an unreadable
/// list must not be mistaken for an empty one.
pub fn custom_paths_checked(list: Option<&str>) -> (r: Option<Vec<String>>)
    ensures
        list is None ==> r is None,
        list matches Some(v) ==> r matches Some(p) && texts(p@) == parse_string_list_spec(v@),
{
    match list {
        None => None,
        Some(v) => Some(parse_string_list(v)),
    }
}

/// The custom-keybinding paths for looking at, an unreadable list counting as empty.
pub fn custom_paths(list: Option<&str>) -> (r: Vec<String>)
    ensures
        list is None ==> r@.len() == 0,
        list matches Some(v) ==> texts(r@) == parse_string_list_spec(v@),
{
    match list {
        None => Vec::new(),
        Some(v) => parse_string_list(v),
    }
}

/// A custom keybinding as read back: its path, name, command and accelerators.
#[derive(Debug)]
pub struct Custom {
    pub path: String,
    pub name: String,
    pub command: String,
    pub bindings: Vec<String>,
}

/// The first string a value holds, or nothing.
pub open spec fn first_string(raw: Option<Seq<char>>) -> Seq<char> {
    match raw {
        Some(v) => if parse_string_list_spec(v).len() > 0 {
            parse_string_list_spec(v)[0]
        } else {
            Seq::empty()
        },
        None => Seq::empty(),
    }
}

pub open spec fn opt_view(o: Option<&str>) -> Option<Seq<char>> {
    match o {
        Some(s) => Some(s@),
        None => None,
    }
}

fn first_of(raw: Option<&str>) -> (r: String)
    ensures
        r@ == first_string(opt_view(raw)),
{
    match raw {
        None => string_of(&Vec::new()),
        Some(v) => {
            let l = parse_string_list(v);
            if l.len() > 0 {
                assert(texts(l@)[0] == l@[0]@);
                string_of(&chars_of(l[0].as_str()))
            } else {
                string_of(&Vec::new())
            }
        },
    }
}

/// A custom keybinding from what `gsettings get` printed for its `name`,
/// `command` and `binding` keys (`None` where the read failed).
pub fn read_custom(
    path: &str,
    name_raw: Option<&str>,
    command_raw: Option<&str>,
    binding_raw: Option<&str>,
) -> (c: Custom)
    ensures
        c.path@ == path@,
        c.name@ == first_string(opt_view(name_raw)),
        c.command@ == first_string(opt_view(command_raw)),
        binding_raw is None ==> c.bindings@.len() == 0,
        binding_raw matches Some(v) ==> texts(c.bindings@) == parse_string_list_spec(v@),
{
    Custom {
        path: string_of(&chars_of(path)),
        name: first_of(name_raw),
        command: first_of(command_raw),
        bindings: custom_paths(binding_raw),
    }
}

// ---------------------------------------------------------------------------
// Scanning
// ---------------------------------------------------------------------------

/// Is a value GNOME uses for "no accelerator"?
pub open spec fn disabled(raw: Seq<char>) -> bool {
    raw.len() == 0 || raw == "disabled"@
}

/// The accelerators among `raws` that parse, each owned by `owner`.
pub open spec fn accel_entries(raws: Seq<Seq<char>>, owner: OwnerV) -> Seq<((u8, Seq<char>), OwnerV)>
    decreases raws.len(),
{
    if raws.len() == 0 {
        Seq::empty()
    } else {
        let r = accel_entries(raws.drop_last(), owner);
        let raw = raws.last();
        if disabled(raw) {
            r
        } else {
            match parse_spec(raw) {
                Ok(m) => r.push((m, owner)),
                Err(_) => r,
            }
        }
    }
}

/// A `list-recursively` line, `<schema> <key> <value>`, split in three.
pub open spec fn dump_line_spec(line: Seq<char>) -> Option<(Seq<char>, Seq<char>, Seq<char>)> {
    match first_index(line, ' ') {
        None => None,
        Some(i) => {
            let rest = line.subrange(i + 1, line.len() as int);
            match first_index(rest, ' ') {
                None => None,
                Some(j) => Some(
                    (line.subrange(0, i), rest.subrange(0, j), rest.subrange(j + 1, rest.len() as int)),
                ),
            }
        },
    }
}

/// Keys in the scanned schemas whose values are not accelerators.
pub open spec fn not_accelerator(key: Seq<char>) -> bool {
    key == "custom-keybindings"@ || key == "available"@ || key == "active"@
}

pub open spec fn line_entries(line: Seq<char>) -> Seq<((u8, Seq<char>), OwnerV)> {
    match dump_line_spec(line) {
        Some(p) => if not_accelerator(p.1) {
            Seq::empty()
        } else {
            accel_entries(parse_string_list_spec(p.2), OwnerV::Setting(p.0, p.1))
        },
        None => Seq::empty(),
    }
}

pub open spec fn lines_entries(ls: Seq<Seq<char>>) -> Seq<((u8, Seq<char>), OwnerV)>
    decreases ls.len(),
{
    if ls.len() == 0 {
        Seq::empty()
    } else {
        lines_entries(ls.drop_last()) + line_entries(ls.last())
    }
}

pub open spec fn dumps_entries(dumps: Seq<Seq<char>>) -> Seq<((u8, Seq<char>), OwnerV)>
    decreases dumps.len(),
{
    if dumps.len() == 0 {
        Seq::empty()
    } else {
        dumps_entries(dumps.drop_last()) + lines_entries(lines(dumps.last()))
    }
}

pub open spec fn custom_view(c: Custom) -> OwnerV {
    OwnerV::Custom(c.path@, c.name@, c.command@)
}

pub open spec fn customs_entries(cs: Seq<Custom>) -> Seq<((u8, Seq<char>), OwnerV)>
    decreases cs.len(),
{
    if cs.len() == 0 {
        Seq::empty()
    } else {
        customs_entries(cs.drop_last()) + accel_entries(
            texts(cs.last().bindings@),
            custom_view(cs.last()),
        )
    }
}

/// Every accelerator bound in the dumps of the keybinding schemas and in the
/// custom keybindings, in that order.
pub open spec fn scan_spec(dumps: Seq<Seq<char>>, customs: Seq<Custom>) -> Seq<((u8, Seq<char>), OwnerV)> {
    dumps_entries(dumps) + customs_entries(customs)
}

fn push_entries(out: &mut Vec<Binding>, raws: &Vec<String>, owner: &Owner)
    ensures
        gentries(final(out)@) == gentries(old(out)@) + accel_entries(texts(raws@), owner@),
{
    let ghost start = gentries(out@);
    let mut i: usize = 0;
    assert(texts(raws@).subrange(0, 0) =~= Seq::<Seq<char>>::empty());
    assert(gentries(out@) =~= start + accel_entries(texts(raws@).subrange(0, 0), owner@));
    while i < raws.len()
        invariant
            i <= raws.len(),
            gentries(out@) == start + accel_entries(texts(raws@).subrange(0, i as int), owner@),
        decreases raws.len() - i,
    {
        assert(texts(raws@).subrange(0, i + 1).drop_last() =~= texts(raws@).subrange(0, i as int));
        assert(texts(raws@)[i as int] == raws@[i as int]@);
        let raw = chars_of(raws[i].as_str());
        if !(raw.len() == 0 || same(&raw, "disabled")) {
            match Accel::parse(raws[i].as_str()) {
                Ok(a) => {
                    let ghost before = gentries(out@);
                    let b = Binding { accel: a, owner: owner.clone() };
                    out.push(b);
                    assert(gentries(out@) =~= before.push(gentry(b)));
                },
                Err(_) => {},
            }
        }
        i = i + 1;
    }
    assert(texts(raws@).subrange(0, raws@.len() as int) =~= texts(raws@));
}

fn split_dump_line(line: &[char]) -> (r: Option<(Vec<char>, Vec<char>, Vec<char>)>)
    ensures
        r matches Some(p) ==> dump_line_spec(line@) == Some((p.0@, p.1@, p.2@)),
        r is None ==> dump_line_spec(line@) is None,
{
    match find_char(line, ' ') {
        None => None,
        Some(i) => {
            let rest = slice(line, i + 1, line.len());
            match find_char(&rest, ' ') {
                None => None,
                Some(j) => Some((slice(line, 0, i), slice(&rest, 0, j), slice(&rest, j + 1, rest.len()))),
            }
        },
    }
}

/// Every accelerator bound anywhere GNOME keeps them: `dumps` holds what
/// `gsettings list-recursively` printed for each keybinding schema that could
/// be read, `customs` the custom keybindings.
pub fn scan(dumps: &[String], customs: &[Custom]) -> (r: Vec<Binding>)
    ensures
        gentries(r@) == scan_spec(texts(dumps@), customs@),
{
    let mut out: Vec<Binding> = Vec::new();
    let ghost dv = texts(dumps@);
    let mut d: usize = 0;
    assert(dv.subrange(0, 0) =~= Seq::<Seq<char>>::empty());
    while d < dumps.len()
        invariant
            d <= dumps.len(),
            dv == texts(dumps@),
            gentries(out@) == dumps_entries(dv.subrange(0, d as int)),
        decreases dumps.len() - d,
    {
        assert(dv.subrange(0, d + 1).drop_last() =~= dv.subrange(0, d as int));
        assert(dv[d as int] == dumps@[d as int]@);
        let ls = lines_of(&chars_of(dumps[d].as_str()));
        let ghost lv = views(ls@);
        let ghost base = gentries(out@);
        let mut k: usize = 0;
        assert(lv.subrange(0, 0) =~= Seq::<Seq<char>>::empty());
        assert(base =~= base + lines_entries(lv.subrange(0, 0)));
        while k < ls.len()
            invariant
                k <= ls.len(),
                lv == views(ls@),
                gentries(out@) == base + lines_entries(lv.subrange(0, k as int)),
            decreases ls.len() - k,
        {
            assert(lv.subrange(0, k + 1).drop_last() =~= lv.subrange(0, k as int));
            assert(lv[k as int] == ls@[k as int]@);
            let ghost before = gentries(out@);
            match split_dump_line(&ls[k]) {
                Some(p) => {
                    let (sch, key, value) = p;
                    if !(same(&key, "custom-keybindings") || same(&key, "available") || same(
                        &key,
                        "active",
                    )) {
                        let owner = Owner::Setting { schema: string_of(&sch), key: string_of(&key) };
                        let raws = parse_string_list(string_of(&value).as_str());
                        push_entries(&mut out, &raws, &owner);
                    } else {
                        assert(before =~= before + Seq::<((u8, Seq<char>), OwnerV)>::empty());
                    }
                },
                None => {
                    assert(before =~= before + Seq::<((u8, Seq<char>), OwnerV)>::empty());
                },
            }
            assert(gentries(out@) =~= base + lines_entries(lv.subrange(0, k + 1)));
            k = k + 1;
        }
        assert(lv.subrange(0, lv.len() as int) =~= lv);
        d = d + 1;
    }
    assert(dv.subrange(0, dv.len() as int) =~= dv);
    let ghost mid = gentries(out@);
    let mut c: usize = 0;
    assert(customs@.subrange(0, 0) =~= Seq::<Custom>::empty());
    assert(mid =~= mid + customs_entries(customs@.subrange(0, 0)));
    while c < customs.len()
        invariant
            c <= customs.len(),
            gentries(out@) == mid + customs_entries(customs@.subrange(0, c as int)),
        decreases customs.len() - c,
    {
        assert(customs@.subrange(0, c + 1).drop_last() =~= customs@.subrange(0, c as int));
        let cu = &customs[c];
        let owner = Owner::Custom {
            path: string_of(&chars_of(cu.path.as_str())),
            name: string_of(&chars_of(cu.name.as_str())),
            command: string_of(&chars_of(cu.command.as_str())),
        };
        let ghost before = gentries(out@);
        push_entries(&mut out, &cu.bindings, &owner);
        assert(gentries(out@) =~= mid + customs_entries(customs@.subrange(0, c + 1)));
        c = c + 1;
    }
    assert(customs@.subrange(0, customs@.len() as int) =~= customs@);
    out
}

/// Does a found binding collide with `a`? RatClick's own never do.
pub open spec fn gcollides(b: Binding, a: Accel) -> bool {
    b.accel.mods == a.mods && b.accel.key@ == a.key@ && !is_ours_spec(b.owner@)
}

pub open spec fn gconflicts_spec(found: Seq<Binding>, a: Accel) -> Seq<Binding>
    decreases found.len(),
{
    if found.len() == 0 {
        Seq::empty()
    } else {
        let r = gconflicts_spec(found.drop_last(), a);
        if gcollides(found.last(), a) {
            r.push(found.last())
        } else {
            r
        }
    }
}

/// Bindings among those scanned that would collide with `accel`, excluding
/// RatClick's own.
pub fn conflicts_for(found: &[Binding], accel: &Accel) -> (r: Vec<Binding>)
    ensures
        r@ == gconflicts_spec(found@, *accel),
{
    let mut r: Vec<Binding> = Vec::new();
    let mut i: usize = 0;
    while i < found.len()
        invariant
            i <= found.len(),
            r@ == gconflicts_spec(found@.subrange(0, i as int), *accel),
        decreases found.len() - i,
    {
        assert(found@.subrange(0, i + 1).drop_last() =~= found@.subrange(0, i as int));
        let b = &found[i];
        if b.accel == *accel && !b.owner.is_ours() {
            r.push(b.clone());
        }
        i = i + 1;
    }
    assert(found@.subrange(0, found@.len() as int) =~= found@);
    r
}


// ---------------------------------------------------------------------------
// What taking, installing and removing write
// ---------------------------------------------------------------------------

/// A `gsettings set schema key value`.
#[derive(Debug)]
pub struct Write {
    pub schema: String,
    pub key: String,
    pub value: String,
}

pub open spec fn wview(w: Write) -> (Seq<char>, Seq<char>, Seq<char>) {
    (w.schema@, w.key@, w.value@)
}

pub open spec fn wviews(v: Seq<Write>) -> Seq<(Seq<char>, Seq<char>, Seq<char>)> {
    v.map_values(|w: Write| wview(w))
}

/// Why the custom-keybinding list cannot be rewritten.
#[derive(Debug, Clone, PartialEq, Eq)]
pub enum GnomeError {
    /// The existing list could not be read, and writing it anyway would
    /// delete every custom shortcut the user has.
    Unreadable,
}

impl GnomeError {
    pub fn message(&self) -> (s: String)
        ensures
            s@ == "could not read the existing custom keyboard shortcuts; refusing to overwrite them"@,
    {
        string_of(
            &chars_of(
                "could not read the existing custom keyboard shortcuts; refusing to overwrite them",
            ),
        )
    }
}

fn write(schema: &str, key: &str, value: String) -> (w: Write)
    ensures
        wview(w) == (schema@, key@, value@),
{
    Write { schema: string_of(&chars_of(schema)), key: string_of(&chars_of(key)), value }
}

/// The accelerators left in a setting once `a` is taken out of it.
pub open spec fn kept_spec(raws: Seq<Seq<char>>, a: (u8, Seq<char>)) -> Seq<Seq<char>>
    decreases raws.len(),
{
    if raws.len() == 0 {
        Seq::empty()
    } else {
        let r = kept_spec(raws.drop_last(), a);
        if parse_spec(raws.last()) == Ok::<(u8, Seq<char>), crate::accel::AccelErr>(a) {
            r
        } else {
            r.push(raws.last())
        }
    }
}

/// The new value of a GNOME setting whose current value is `current`, once
/// `accel` is taken from it: the action keeps whatever else it was bound to.
pub fn steal_value(current: &str, accel: &Accel) -> (r: String)
    ensures
        r@ == format_string_list_spec(kept_spec(parse_string_list_spec(current@), model(*accel))),
{
    let raws = parse_string_list(current);
    let ghost rv = texts(raws@);
    let mut kept: Vec<String> = Vec::new();
    let mut i: usize = 0;
    assert(rv.subrange(0, 0) =~= Seq::<Seq<char>>::empty());
    while i < raws.len()
        invariant
            i <= raws.len(),
            rv == texts(raws@),
            texts(kept@) == kept_spec(rv.subrange(0, i as int), model(*accel)),
        decreases raws.len() - i,
    {
        assert(rv.subrange(0, i + 1).drop_last() =~= rv.subrange(0, i as int));
        assert(rv[i as int] == raws@[i as int]@);
        let ghost before = texts(kept@);
        let same_accel = match Accel::parse(raws[i].as_str()) {
            Ok(p) => {
                proof {
                    if p.mods.bits() == accel.mods.bits() {
                        Modifiers::lemma_bits_eq(p.mods, accel.mods);
                    }
                }
                p == *accel
            },
            Err(_) => false,
        };
        if !same_accel {
            let copy = string_of(&chars_of(raws[i].as_str()));
            kept.push(copy);
            assert(texts(kept@) =~= before.push(rv[i as int]));
        }
        i = i + 1;
    }
    assert(rv.subrange(0, rv.len() as int) =~= rv);
    format_string_list(&kept)
}

/// `paths` without `path`.
pub open spec fn drop_path(paths: Seq<Seq<char>>, path: Seq<char>) -> Seq<Seq<char>>
    decreases paths.len(),
{
    if paths.len() == 0 {
        Seq::empty()
    } else {
        let r = drop_path(paths.drop_last(), path);
        if paths.last() == path {
            r
        } else {
            r.push(paths.last())
        }
    }
}

/// The write that takes `path` off the custom-keybinding list whose value is
/// `list` (an unreadable list counting as empty).
pub fn without_path(list: Option<&str>, path: &str) -> (w: Write)
    ensures
        wview(w) == (
            MEDIA_KEYS_SCHEMA@,
            "custom-keybindings"@,
            format_string_list_spec(
                drop_path(
                    match opt_view(list) {
                        Some(v) => parse_string_list_spec(v),
                        None => Seq::empty(),
                    },
                    path@,
                ),
            ),
        ),
{
    let paths = custom_paths(list);
    let ghost pv = texts(paths@);
    assert(pv == match opt_view(list) {
        Some(v) => parse_string_list_spec(v),
        None => Seq::<Seq<char>>::empty(),
    });
    let target = chars_of(path);
    let mut kept: Vec<String> = Vec::new();
    let mut i: usize = 0;
    assert(pv.subrange(0, 0) =~= Seq::<Seq<char>>::empty());
    while i < paths.len()
        invariant
            i <= paths.len(),
            pv == texts(paths@),
            target@ == path@,
            texts(kept@) == drop_path(pv.subrange(0, i as int), path@),
        decreases paths.len() - i,
    {
        assert(pv.subrange(0, i + 1).drop_last() =~= pv.subrange(0, i as int));
        assert(pv[i as int] == paths@[i as int]@);
        let ghost before = texts(kept@);
        let p = chars_of(paths[i].as_str());
        if !crate::text::eq_chars(&p, &target) {
            kept.push(string_of(&p));
            assert(texts(kept@) =~= before.push(pv[i as int]));
        }
        i = i + 1;
    }
    assert(pv.subrange(0, pv.len() as int) =~= pv);
    write(MEDIA_KEYS_SCHEMA, "custom-keybindings", format_string_list(&kept))
}

/// Taking `accel` from one binding that holds it: the write to make, the
/// custom-keybinding path whose keys are then to be reset, and what was taken,
/// described. A GNOME setting keeps its other accelerators (`current` is its
/// value); a custom keybinding holds only one, so its path comes off the list
/// (`current` is the list, an unreadable one counting as empty).
pub fn steal(binding: &Binding, current: Option<&str>, accel: &Accel) -> (r: (
    Write,
    Option<String>,
    String,
))
    requires
        binding.owner is Setting ==> current is Some,
    ensures
        r.2@ == describe_owner(binding.owner@),
        match binding.owner@ {
            OwnerV::Setting(schema, key) => r.1 is None && wview(r.0) == (
                schema,
                key,
                format_string_list_spec(
                    kept_spec(parse_string_list_spec(opt_view(current)->0), model(*accel)),
                ),
            ),
            OwnerV::Custom(path, _, _) => (r.1 matches Some(p) && p@ == path) && wview(r.0) == (
                MEDIA_KEYS_SCHEMA@,
                "custom-keybindings"@,
                format_string_list_spec(
                    drop_path(
                        match opt_view(current) {
                            Some(v) => parse_string_list_spec(v),
                            None => Seq::empty(),
                        },
                        path,
                    ),
                ),
            ),
        },
{
    let taken = binding.owner.describe();
    match &binding.owner {
        Owner::Setting { schema, key } => {
            let value = match current {
                Some(v) => steal_value(v, accel),
                None => String::new(),
            };
            (write(schema.as_str(), key.as_str(), value), None, taken)
        },
        Owner::Custom { path, .. } => {
            let w = without_path(current, path.as_str());
            (w, Some(string_of(&chars_of(path.as_str()))), taken)
        },
    }
}

/// The keys of a custom keybinding, as `(schema, key)` pairs to reset when it
/// is removed.
pub fn reset_custom(path: &str) -> (r: Vec<(String, String)>)
    ensures
        r@.len() == 3,
        r@[0].0@ == custom_schema_spec(path@) && r@[0].1@ == "binding"@,
        r@[1].0@ == custom_schema_spec(path@) && r@[1].1@ == "command"@,
        r@[2].0@ == custom_schema_spec(path@) && r@[2].1@ == "name"@,
{
    let mut r: Vec<(String, String)> = Vec::new();
    r.push((custom_schema_for(path), string_of(&chars_of("binding"))));
    r.push((custom_schema_for(path), string_of(&chars_of("command"))));
    r.push((custom_schema_for(path), string_of(&chars_of("name"))));
    r
}

/// The dconf path of RatClick's `i`th custom keybinding.
pub open spec fn our_path(i: int) -> Seq<char> {
    CUSTOM_PATH_ROOT@ + "/"@ + OUR_PATH_PREFIX@ + dec(i as u64) + "/"@
}

/// The name shown in Settings for RatClick's `i`th of `n` keybindings.
pub open spec fn label_spec(i: int, n: int) -> Seq<char> {
    if n == 1 {
        "RatClick: toggle clicking"@
    } else {
        "RatClick: toggle clicking ("@ + dec((i + 1) as u64) + ")"@
    }
}

/// The writes that set up RatClick's `i`th keybinding: its name, its command
/// and its one accelerator (the `binding` key holds a single string).
pub open spec fn entry_writes(i: int, a: (u8, Seq<char>), n: int, command: Seq<char>) -> Seq<
    (Seq<char>, Seq<char>, Seq<char>),
> {
    let schema = custom_schema_spec(our_path(i));
    seq![
        (schema, "name"@, quote_spec(label_spec(i, n))),
        (schema, "command"@, quote_spec(command)),
        (schema, "binding"@, quote_spec(to_gtk_spec(a.0, a.1))),
    ]
}

pub open spec fn entries_writes(accels: Seq<(u8, Seq<char>)>, n: int, command: Seq<char>) -> Seq<
    (Seq<char>, Seq<char>, Seq<char>),
>
    decreases accels.len(),
{
    if accels.len() == 0 {
        Seq::empty()
    } else {
        entries_writes(accels.drop_last(), n, command) + entry_writes(
            accels.len() - 1,
            accels.last(),
            n,
            command,
        )
    }
}

/// The custom-keybinding list with RatClick's first `k` paths added where missing.
pub open spec fn with_our_paths(paths: Seq<Seq<char>>, k: nat) -> Seq<Seq<char>>
    decreases k,
{
    if k == 0 {
        paths
    } else {
        let p = with_our_paths(paths, (k - 1) as nat);
        if p.contains(our_path(k - 1)) {
            p
        } else {
            p.push(our_path(k - 1))
        }
    }
}

/// What installing `accels` with `command` writes, given the value of the
/// custom-keybinding list read after RatClick's old entries were removed.
pub open spec fn install_spec(
    list: Option<Seq<char>>,
    accels: Seq<(u8, Seq<char>)>,
    command: Seq<char>,
) -> Option<Seq<(Seq<char>, Seq<char>, Seq<char>)>> {
    if accels.len() == 0 {
        Some(Seq::empty())
    } else {
        match list {
            None => None,
            Some(v) => Some(
                entries_writes(accels, accels.len() as int, command).push(
                    (
                        MEDIA_KEYS_SCHEMA@,
                        "custom-keybindings"@,
                        format_string_list_spec(
                            with_our_paths(parse_string_list_spec(v), accels.len()),
                        ),
                    ),
                ),
            ),
        }
    }
}

fn our_path_of(i: usize) -> (r: Vec<char>)
    ensures
        r@ == our_path(i as int),
{
    let mut out: Vec<char> = Vec::new();
    push_str(&mut out, CUSTOM_PATH_ROOT);
    push_str(&mut out, "/");
    push_str(&mut out, OUR_PATH_PREFIX);
    push_dec(&mut out, i as u64);
    push_str(&mut out, "/");
    out
}

fn contains_text(v: &Vec<String>, x: &[char]) -> (b: bool)
    ensures
        b == texts(v@).contains(x@),
{
    let mut i: usize = 0;
    while i < v.len()
        invariant
            i <= v.len(),
            forall|j: int| 0 <= j < i ==> texts(v@)[j] != x@,
        decreases v.len() - i,
    {
        assert(texts(v@)[i as int] == v@[i as int]@);
        if crate::text::eq_chars(&chars_of(v[i].as_str()), x) {
            return true;
        }
        i = i + 1;
    }
    false
}

/// Install `accels` as RatClick custom keybindings running `command`: the
/// writes to make, given what `gsettings get` printed for the custom-keybinding
/// list once RatClick's previous entries were removed. Refused when there is
/// something to install and that list could not be read.
pub fn install(list: Option<&str>, accels: &[Accel], command: &str) -> (r: Result<
    Vec<Write>,
    GnomeError,
>)
    ensures
        match install_spec(opt_view(list), binding_models(accels@), command@) {
            Some(ws) => r matches Ok(v) && wviews(v@) == ws,
            None => r is Err,
        },
{
    let ghost models = binding_models(accels@);
    let n = accels.len();
    if n == 0 {
        let v: Vec<Write> = Vec::new();
        assert(wviews(v@) =~= Seq::<(Seq<char>, Seq<char>, Seq<char>)>::empty());
        return Ok(v);
    }
    let mut paths = match list {
        None => {
            return Err(GnomeError::Unreadable);
        },
        Some(v) => parse_string_list(v),
    };
    let ghost start = texts(paths@);
    let mut writes: Vec<Write> = Vec::new();
    let mut i: usize = 0;
    assert(models.subrange(0, 0) =~= Seq::<(u8, Seq<char>)>::empty());
    while i < n
        invariant
            i <= n,
            n == accels.len(),
            n > 0,
            models == binding_models(accels@),
            wviews(writes@) == entries_writes(models.subrange(0, i as int), n as int, command@),
            texts(paths@) == with_our_paths(start, i as nat),
        decreases n - i,
    {
        assert(models.subrange(0, i + 1).drop_last() =~= models.subrange(0, i as int));
        assert(models[i as int] == model(accels@[i as int]));
        let path = our_path_of(i);
        let path_text = string_of(&path);
        let schema = custom_schema_for(path_text.as_str());
        let mut label: Vec<char> = Vec::new();
        if n == 1 {
            push_str(&mut label, "RatClick: toggle clicking");
        } else {
            push_str(&mut label, "RatClick: toggle clicking (");
            push_dec(&mut label, i as u64 + 1);
            push_str(&mut label, ")");
        }
        assert(label@ == label_spec(i as int, n as int));
        let ghost before = wviews(writes@);
        let w1 = write(schema.as_str(), "name", format_string(string_of(&label).as_str()));
        let w2 = write(schema.as_str(), "command", format_string(command));
        let gtk = accels[i].to_gtk();
        let w3 = write(schema.as_str(), "binding", format_string(gtk.as_str()));
        writes.push(w1);
        writes.push(w2);
        writes.push(w3);
        assert(wviews(writes@) =~= before + entry_writes(i as int, models[i as int], n as int, command@));
        let ghost pbefore = texts(paths@);
        if !contains_text(&paths, &path) {
            paths.push(path_text);
            assert(texts(paths@) =~= pbefore.push(our_path(i as int)));
        }
        i = i + 1;
    }
    assert(models.subrange(0, n as int) =~= models);
    let ghost before = wviews(writes@);
    let last = write(MEDIA_KEYS_SCHEMA, "custom-keybindings", format_string_list(&paths));
    writes.push(last);
    assert(wviews(writes@) =~= before.push(wview(last)));
    Ok(writes)
}

/// Is a custom-keybinding path one of RatClick's?
pub open spec fn ours_path(p: Seq<char>) -> bool {
    contains_seq(p, OUR_PATH_PREFIX@)
}

pub open spec fn ours_of(ps: Seq<Seq<char>>) -> Seq<Seq<char>>
    decreases ps.len(),
{
    if ps.len() == 0 {
        Seq::empty()
    } else if ours_path(ps.last()) {
        ours_of(ps.drop_last()).push(ps.last())
    } else {
        ours_of(ps.drop_last())
    }
}

pub open spec fn theirs_of(ps: Seq<Seq<char>>) -> Seq<Seq<char>>
    decreases ps.len(),
{
    if ps.len() == 0 {
        Seq::empty()
    } else if ours_path(ps.last()) {
        theirs_of(ps.drop_last())
    } else {
        theirs_of(ps.drop_last()).push(ps.last())
    }
}

/// Removing RatClick's keybindings: refused when the list could not be read;
/// nothing to do when none of its paths are RatClick's; otherwise the list is
/// rewritten with only the others, and RatClick's paths are to be reset.
pub open spec fn uninstall_spec(list: Option<Seq<char>>) -> Option<
    Option<((Seq<char>, Seq<char>, Seq<char>), Seq<Seq<char>>)>,
> {
    match list {
        None => None,
        Some(v) => {
            let ps = parse_string_list_spec(v);
            if ours_of(ps).len() == 0 {
                Some(None)
            } else {
                Some(
                    Some(
                        (
                            (
                                MEDIA_KEYS_SCHEMA@,
                                "custom-keybindings"@,
                                format_string_list_spec(theirs_of(ps)),
                            ),
                            ours_of(ps),
                        ),
                    ),
                )
            }
        },
    }
}

/// What removing every RatClick custom keybinding writes, given what
/// `gsettings get` printed for the custom-keybinding list: the list rewrite,
/// and the paths whose keys are then to be reset.
pub fn uninstall(list: Option<&str>) -> (r: Result<Option<(Write, Vec<String>)>, GnomeError>)
    ensures
        match uninstall_spec(opt_view(list)) {
            None => r is Err,
            Some(None) => r matches Ok(x) && x is None,
            Some(Some(p)) => r matches Ok(x) && x matches Some(q) && wview(q.0) == p.0 && texts(
                q.1@,
            ) == p.1,
        },
{
    let paths = match list {
        None => {
            return Err(GnomeError::Unreadable);
        },
        Some(v) => parse_string_list(v),
    };
    let ghost pv = texts(paths@);
    let mut ours: Vec<String> = Vec::new();
    let mut theirs: Vec<String> = Vec::new();
    let mut i: usize = 0;
    assert(pv.subrange(0, 0) =~= Seq::<Seq<char>>::empty());
    while i < paths.len()
        invariant
            i <= paths.len(),
            pv == texts(paths@),
            texts(ours@) == ours_of(pv.subrange(0, i as int)),
            texts(theirs@) == theirs_of(pv.subrange(0, i as int)),
        decreases paths.len() - i,
    {
        assert(pv.subrange(0, i + 1).drop_last() =~= pv.subrange(0, i as int));
        assert(pv[i as int] == paths@[i as int]@);
        let p = chars_of(paths[i].as_str());
        let ghost bo = texts(ours@);
        let ghost bt = texts(theirs@);
        if contains_lit(&p, OUR_PATH_PREFIX) {
            ours.push(string_of(&p));
            assert(texts(ours@) =~= bo.push(pv[i as int]));
        } else {
            theirs.push(string_of(&p));
            assert(texts(theirs@) =~= bt.push(pv[i as int]));
        }
        i = i + 1;
    }
    assert(pv.subrange(0, pv.len() as int) =~= pv);
    if ours.len() == 0 {
        return Ok(None);
    }
    let w = write(MEDIA_KEYS_SCHEMA, "custom-keybindings", format_string_list(&theirs));
    Ok(Some((w, ours)))
}


// ---------------------------------------------------------------------------
// Reading back what is installed
// ---------------------------------------------------------------------------

/// `a` sorts no later than `b`.
pub open spec fn lex_le(a: Seq<char>, b: Seq<char>) -> bool {
    !lex_lt(b, a)
}

pub open spec fn sorted_le(s: Seq<Seq<char>>) -> bool {
    forall|i: int, j: int| 0 <= i < j < s.len() ==> lex_le(#[trigger] s[i], #[trigger] s[j])
}

proof fn lemma_le_trans(a: Seq<char>, b: Seq<char>, c: Seq<char>)
    requires
        lex_le(a, b),
        lex_le(b, c),
    ensures
        lex_le(a, c),
{
    crate::text::lemma_lex_total(a, b);
    crate::text::lemma_lex_total(b, c);
    if lex_lt(c, a) {
        if a == b {
        } else if b == c {
        } else {
            crate::text::lemma_lex_trans(a, b, c);
            crate::text::lemma_lex_trans(c, a, b);
            crate::text::lemma_lex_irrefl(c);
        }
    }
}

/// RatClick's own custom-keybinding paths, in sorted order, from what
/// `gsettings get` printed for the list (an unreadable list counting as empty).
pub fn our_paths(list: Option<&str>) -> (r: Vec<String>)
    ensures
        sorted_le(texts(r@)),
        texts(r@).to_multiset() == ours_of(
            match opt_view(list) {
                Some(v) => parse_string_list_spec(v),
                None => Seq::empty(),
            },
        ).to_multiset(),
{
    let paths = custom_paths(list);
    let ghost pv = texts(paths@);
    assert(pv == match opt_view(list) {
        Some(v) => parse_string_list_spec(v),
        None => Seq::<Seq<char>>::empty(),
    });
    let mut out: Vec<String> = Vec::new();
    let mut i: usize = 0;
    assert(pv.subrange(0, 0) =~= Seq::<Seq<char>>::empty());
    proof {
        broadcast use vstd::seq_lib::group_to_multiset_ensures;
        assert(Seq::<Seq<char>>::empty().to_multiset() =~= vstd::multiset::Multiset::empty());
    }
    while i < paths.len()
        invariant
            i <= paths.len(),
            pv == texts(paths@),
            sorted_le(texts(out@)),
            texts(out@).to_multiset() == ours_of(pv.subrange(0, i as int)).to_multiset(),
        decreases paths.len() - i,
    {
        assert(pv.subrange(0, i + 1).drop_last() =~= pv.subrange(0, i as int));
        assert(pv[i as int] == paths@[i as int]@);
        let p = chars_of(paths[i].as_str());
        if contains_lit(&p, OUR_PATH_PREFIX) {
            let ghost ov = texts(out@);
            let mut j: usize = 0;
            while j < out.len() && crate::text::less(&chars_of(out[j].as_str()), &p)
                invariant
                    j <= out.len(),
                    ov == texts(out@),
                    forall|q: int| 0 <= q < j ==> lex_lt(#[trigger] ov[q], p@),
                decreases out.len() - j,
            {
                assert(ov[j as int] == out@[j as int]@);
                j = j + 1;
            }
            if j < out.len() {
                assert(ov[j as int] == out@[j as int]@);
            }
            let ps = string_of(&p);
            out.insert(j, ps);
            let ghost nv = texts(out@);
            assert(nv =~= ov.insert(j as int, p@));
            assert forall|a: int, b: int| 0 <= a < b < nv.len() implies lex_le(
                #[trigger] nv[a],
                #[trigger] nv[b],
            ) by {
                if b < j {
                } else if b == j {
                    crate::text::lemma_lex_total(nv[a], p@);
                    if lex_lt(p@, nv[a]) {
                        crate::text::lemma_lex_trans(nv[a], p@, nv[a]);
                        crate::text::lemma_lex_irrefl(nv[a]);
                    }
                } else {
                    if b - 1 == j {
                        crate::text::lemma_lex_irrefl(ov[j as int]);
                    } else {
                        assert(lex_le(ov[j as int], ov[b - 1]));
                    }
                    assert(lex_le(p@, ov[j as int]));
                    lemma_le_trans(p@, ov[j as int], ov[b - 1]);
                    assert(nv[b] == ov[b - 1]);
                    if a < j {
                        assert(lex_lt(nv[a], p@));
                        if lex_lt(nv[b], nv[a]) {
                            crate::text::lemma_lex_trans(nv[b], nv[a], p@);
                        }
                    } else if a > j {
                        assert(nv[a] == ov[a - 1]);
                    }
                }
            }
            proof {
                vstd::seq_lib::to_multiset_insert(ov, j as int, p@);
                broadcast use vstd::seq_lib::group_to_multiset_ensures;
            }
        }
        i = i + 1;
    }
    assert(pv.subrange(0, pv.len() as int) =~= pv);
    out
}

/// The accelerators among `raws` that parse, in order.
pub open spec fn parsed_accels(raws: Seq<Seq<char>>) -> Seq<(u8, Seq<char>)>
    decreases raws.len(),
{
    if raws.len() == 0 {
        Seq::empty()
    } else {
        match parse_spec(raws.last()) {
            Ok(m) => parsed_accels(raws.drop_last()).push(m),
            Err(_) => parsed_accels(raws.drop_last()),
        }
    }
}

pub open spec fn installed_spec(customs: Seq<Custom>) -> Seq<(u8, Seq<char>)>
    decreases customs.len(),
{
    if customs.len() == 0 {
        Seq::empty()
    } else {
        installed_spec(customs.drop_last()) + parsed_accels(texts(customs.last().bindings@))
    }
}

/// What RatClick has installed, as accelerators, from its custom keybindings
/// read back in the order of [`our_paths`].
pub fn installed(customs: &[Custom]) -> (r: Vec<Accel>)
    ensures
        binding_models(r@) == installed_spec(customs@),
{
    let mut out: Vec<Accel> = Vec::new();
    let mut c: usize = 0;
    assert(customs@.subrange(0, 0) =~= Seq::<Custom>::empty());
    while c < customs.len()
        invariant
            c <= customs.len(),
            binding_models(out@) == installed_spec(customs@.subrange(0, c as int)),
        decreases customs.len() - c,
    {
        assert(customs@.subrange(0, c + 1).drop_last() =~= customs@.subrange(0, c as int));
        let raws = &customs[c].bindings;
        let ghost rv = texts(raws@);
        let ghost base = binding_models(out@);
        let mut i: usize = 0;
        assert(rv.subrange(0, 0) =~= Seq::<Seq<char>>::empty());
        assert(base =~= base + parsed_accels(rv.subrange(0, 0)));
        while i < raws.len()
            invariant
                i <= raws.len(),
                rv == texts(raws@),
                binding_models(out@) == base + parsed_accels(rv.subrange(0, i as int)),
            decreases raws.len() - i,
        {
            assert(rv.subrange(0, i + 1).drop_last() =~= rv.subrange(0, i as int));
            assert(rv[i as int] == raws@[i as int]@);
            let ghost before = binding_models(out@);
            match Accel::parse(raws[i].as_str()) {
                Ok(a) => {
                    out.push(a);
                    assert(binding_models(out@) =~= before.push(model(a)));
                },
                Err(_) => {},
            }
            i = i + 1;
        }
        assert(rv.subrange(0, rv.len() as int) =~= rv);
        c = c + 1;
    }
    assert(customs@.subrange(0, customs@.len() as int) =~= customs@);
    out
}


/// Accelerators in the order a `BTreeMap<Accel, _>` keeps them: by modifier
/// bits, then by key.
pub open spec fn accel_lt(a: (u8, Seq<char>), b: (u8, Seq<char>)) -> bool {
    a.0 < b.0 || (a.0 == b.0 && lex_lt(a.1, b.1))
}

proof fn lemma_accel_order(a: (u8, Seq<char>), b: (u8, Seq<char>), c: (u8, Seq<char>))
    ensures
        !accel_lt(a, a),
        a == b || accel_lt(a, b) || accel_lt(b, a),
        accel_lt(a, b) && accel_lt(b, c) ==> accel_lt(a, c),
{
    crate::text::lemma_lex_irrefl(a.1);
    crate::text::lemma_lex_total(a.1, b.1);
    if accel_lt(a, b) && accel_lt(b, c) && a.0 == b.0 && b.0 == c.0 {
        crate::text::lemma_lex_trans(a.1, b.1, c.1);
    }
}

/// The owners of the entries whose accelerator is `a`, in order.
pub open spec fn owners_of(es: Seq<((u8, Seq<char>), OwnerV)>, a: (u8, Seq<char>)) -> Seq<OwnerV>
    decreases es.len(),
{
    if es.len() == 0 {
        Seq::empty()
    } else if es.last().0 == a {
        owners_of(es.drop_last(), a).push(es.last().1)
    } else {
        owners_of(es.drop_last(), a)
    }
}

pub open spec fn owner_views(v: Seq<Owner>) -> Seq<OwnerV> {
    v.map_values(|o: Owner| o@)
}

pub open spec fn group_keys(r: Seq<(Accel, Vec<Owner>)>) -> Seq<(u8, Seq<char>)> {
    r.map_values(|g: (Accel, Vec<Owner>)| model(g.0))
}

fn accel_less(a: &Accel, b: &Accel) -> (r: bool)
    ensures
        r == accel_lt(model(*a), model(*b)),
{
    let x = a.mods.raw();
    let y = b.mods.raw();
    if x != y {
        x < y
    } else {
        crate::text::less(&chars_of(a.key.as_str()), &chars_of(b.key.as_str()))
    }
}

/// Group scanned bindings by accelerator — what `ratclick shortcut list`
/// shows. The groups come as a list sorted strictly by accelerator (modifier
/// bits, then key name), the order of a map keyed by accelerator; each holds
/// the owners of that accelerator in the order they were scanned.
pub fn by_accel(found: &[Binding]) -> (r: Vec<(Accel, Vec<Owner>)>)
    ensures
        forall|i: int, j: int|
            0 <= i < j < r@.len() ==> accel_lt(
                #[trigger] group_keys(r@)[i],
                #[trigger] group_keys(r@)[j],
            ),
        forall|i: int|
            0 <= i < r@.len() ==> owner_views((#[trigger] r@[i]).1@) == owners_of(
                gentries(found@),
                model(r@[i].0),
            ) && owners_of(gentries(found@), model(r@[i].0)).len() > 0,
        forall|k: int|
            0 <= k < found@.len() ==> group_keys(r@).contains(model((#[trigger] found@[k]).accel)),
{
    let ghost es = gentries(found@);
    let mut keys: Vec<Accel> = Vec::new();
    let mut k: usize = 0;
    while k < found.len()
        invariant
            k <= found.len(),
            es == gentries(found@),
            forall|i: int, j: int|
                0 <= i < j < keys@.len() ==> accel_lt(
                    #[trigger] binding_models(keys@)[i],
                    #[trigger] binding_models(keys@)[j],
                ),
            forall|i: int|
                0 <= i < keys@.len() ==> owners_of(es.subrange(0, k as int), #[trigger] binding_models(keys@)[i]).len() > 0,
            forall|q: int| 0 <= q < k ==> binding_models(keys@).contains(#[trigger] es[q].0),
        decreases found.len() - k,
    {
        let a = &found[k].accel;
        assert(es[k as int].0 == model(*a));
        assert(es.subrange(0, k + 1).drop_last() =~= es.subrange(0, k as int));
        let ghost kv = binding_models(keys@);
        let ghost x = model(*a);
        let mut j: usize = 0;
        while j < keys.len() && accel_less(&keys[j], a)
            invariant
                j <= keys.len(),
                kv == binding_models(keys@),
                x == model(*a),
                forall|q: int| 0 <= q < j ==> accel_lt(#[trigger] kv[q], x),
            decreases keys.len() - j,
        {
            assert(kv[j as int] == model(keys@[j as int]));
            j = j + 1;
        }
        let mut present = false;
        if j < keys.len() {
            assert(kv[j as int] == model(keys@[j as int]));
            proof {
                if keys@[j as int].mods.bits() == a.mods.bits() {
                    Modifiers::lemma_bits_eq(keys@[j as int].mods, a.mods);
                }
            }
            present = keys[j] == *a;
        }
        assert forall|i: int| 0 <= i < kv.len() implies owners_of(
            es.subrange(0, k + 1),
            #[trigger] kv[i],
        ).len() >= owners_of(es.subrange(0, k as int), kv[i]).len() by {}
        if present {
            assert(kv[j as int] == x);
            assert(kv.contains(x));
        } else {
            proof {
                if j < keys.len() {
                    lemma_accel_order(kv[j as int], x, x);
                }
            }
            keys.insert(j, a.clone());
            let ghost nv = binding_models(keys@);
            assert(nv =~= kv.insert(j as int, x));
            assert forall|p: int, q: int| 0 <= p < q < nv.len() implies accel_lt(
                #[trigger] nv[p],
                #[trigger] nv[q],
            ) by {
                if q < j {
                } else if q == j {
                } else if p < j {
                    lemma_accel_order(nv[p], x, kv[j as int]);
                    if q - 1 > j {
                        lemma_accel_order(nv[p], kv[j as int], kv[q - 1]);
                    }
                } else if p == j {
                    if q - 1 > j {
                        lemma_accel_order(x, kv[j as int], kv[q - 1]);
                    }
                } else {
                    assert(nv[p] == kv[p - 1]);
                    assert(nv[q] == kv[q - 1]);
                }
            }
            assert forall|i: int| 0 <= i < nv.len() implies owners_of(
                es.subrange(0, k + 1),
                #[trigger] nv[i],
            ).len() > 0 by {
                if i < j {
                    assert(nv[i] == kv[i]);
                } else if i > j {
                    assert(nv[i] == kv[i - 1]);
                } else {
                    assert(nv[i] == x);
                }
            }
            assert forall|q: int| 0 <= q < k + 1 implies nv.contains(#[trigger] es[q].0) by {
                if q == k {
                    assert(nv[j as int] == x);
                } else {
                    let w = choose|w: int| 0 <= w < kv.len() && kv[w] == es[q].0;
                    if w < j {
                        assert(nv[w] == kv[w]);
                    } else {
                        assert(nv[w + 1] == kv[w]);
                    }
                }
            }
        }
        k = k + 1;
    }
    assert(es.subrange(0, es.len() as int) =~= es);
    let mut r: Vec<(Accel, Vec<Owner>)> = Vec::new();
    let mut g: usize = 0;
    while g < keys.len()
        invariant
            g <= keys.len(),
            es == gentries(found@),
            forall|i: int, j: int|
                0 <= i < j < keys@.len() ==> accel_lt(
                    #[trigger] binding_models(keys@)[i],
                    #[trigger] binding_models(keys@)[j],
                ),
            forall|i: int|
                0 <= i < keys@.len() ==> owners_of(es, #[trigger] binding_models(keys@)[i]).len() > 0,
            r@.len() == g,
            forall|q: int| 0 <= q < found@.len() ==> binding_models(keys@).contains(#[trigger] es[q].0),
            forall|i: int| 0 <= i < g ==> model((#[trigger] r@[i]).0) == binding_models(keys@)[i],
            forall|i: int|
                0 <= i < g ==> owner_views((#[trigger] r@[i]).1@) == owners_of(es, model(r@[i].0)),
        decreases keys.len() - g,
    {
        let key = &keys[g];
        assert(binding_models(keys@)[g as int] == model(*key));
        let mut owners: Vec<Owner> = Vec::new();
        let mut i: usize = 0;
        assert(es.subrange(0, 0) =~= Seq::<((u8, Seq<char>), OwnerV)>::empty());
        while i < found.len()
            invariant
                i <= found.len(),
                es == gentries(found@),
                owner_views(owners@) == owners_of(es.subrange(0, i as int), model(*key)),
            decreases found.len() - i,
        {
            assert(es.subrange(0, i + 1).drop_last() =~= es.subrange(0, i as int));
            assert(es[i as int] == gentry(found@[i as int]));
            proof {
                if found@[i as int].accel.mods.bits() == key.mods.bits() {
                    Modifiers::lemma_bits_eq(found@[i as int].accel.mods, key.mods);
                }
            }
            if found[i].accel == *key {
                let ghost before = owner_views(owners@);
                let o = found[i].owner.clone();
                owners.push(o);
                assert(owner_views(owners@) =~= before.push(es[i as int].1));
            }
            i = i + 1;
        }
        assert(es.subrange(0, es.len() as int) =~= es);
        r.push((key.clone(), owners));
        g = g + 1;
    }
    assert(group_keys(r@) =~= binding_models(keys@));
    assert forall|k: int| 0 <= k < found@.len() implies group_keys(r@).contains(
        model((#[trigger] found@[k]).accel),
    ) by {
        assert(es[k] == gentry(found@[k]));
        assert(binding_models(keys@).contains(es[k].0));
    }
    r
}


/// Taking an accelerator from a setting removes exactly it: nothing left
/// parses to it, and every other value stays.
pub proof fn law_steal_removes_only_the_accelerator(raws: Seq<Seq<char>>, a: (u8, Seq<char>))
    ensures
        forall|i: int|
            0 <= i < kept_spec(raws, a).len() ==> parse_spec(#[trigger] kept_spec(raws, a)[i])
                != Ok::<(u8, Seq<char>), crate::accel::AccelErr>(a),
        forall|i: int|
            0 <= i < raws.len() && parse_spec(raws[i]) != Ok::<
                (u8, Seq<char>),
                crate::accel::AccelErr,
            >(a) ==> kept_spec(raws, a).contains(#[trigger] raws[i]),
    decreases raws.len(),
{
    if raws.len() > 0 {
        let p = raws.drop_last();
        law_steal_removes_only_the_accelerator(p, a);
        let k = kept_spec(raws, a);
        assert forall|i: int|
            0 <= i < raws.len() && parse_spec(raws[i]) != Ok::<
                (u8, Seq<char>),
                crate::accel::AccelErr,
            >(a) implies k.contains(#[trigger] raws[i]) by {
            if i < raws.len() - 1 {
                assert(raws[i] == p[i]);
                assert(kept_spec(p, a).contains(p[i]));
                let j = choose|j: int| 0 <= j < kept_spec(p, a).len() && kept_spec(p, a)[j] == p[i];
                assert(k[j] == p[i]);
            } else {
                assert(k[k.len() - 1] == raws[i]);
            }
        }
    }
}

/// Installing lists every RatClick keybinding and keeps the user's own: the
/// list written starts with the list read, and holds each of RatClick's paths.
pub proof fn law_install_keeps_the_list(paths: Seq<Seq<char>>, k: nat)
    ensures
        with_our_paths(paths, k).len() >= paths.len(),
        with_our_paths(paths, k).subrange(0, paths.len() as int) == paths,
        forall|i: int| 0 <= i < k ==> with_our_paths(paths, k).contains(#[trigger] our_path(i)),
    decreases k,
{
    if k > 0 {
        law_install_keeps_the_list(paths, (k - 1) as nat);
        let p = with_our_paths(paths, (k - 1) as nat);
        let r = with_our_paths(paths, k);
        if !p.contains(our_path(k - 1)) {
            assert(r.subrange(0, paths.len() as int) =~= p.subrange(0, paths.len() as int));
            assert(r[r.len() - 1] == our_path(k - 1));
        }
        assert forall|i: int| 0 <= i < k implies r.contains(#[trigger] our_path(i)) by {
            if i < k - 1 {
                assert(p.contains(our_path(i)));
                let j = choose|j: int| 0 <= j < p.len() && p[j] == our_path(i);
                assert(r[j] == our_path(i));
            }
        }
    }
}

} // verus!
