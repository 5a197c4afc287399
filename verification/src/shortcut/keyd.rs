//! The keyd shortcut backend.
//!
//! keyd binds keys system-wide at the evdev layer, so a RatClick shortcut
//! installed this way works outside GNOME, on another compositor, and on a TTY.
//!
//! keyd matches each keyboard against the `[ids]` section of the configs in
//! `/etc/keyd`, and when several configs match a device only one of them wins.
//! So RatClick appends a clearly delimited block to *every* config present:
//! whichever config a keyboard ends up using, the binding is in it, and the
//! markers make removal exact.
//!
//! keyd does not accept modifier prefixes on the left of a mapping, so a
//! modified shortcut is written as the bare key inside the layer named by its
//! modifiers: Super+Shift+F12 becomes `[shift+meta]` / `f12 = …`. The block is
//! appended rather than inserted because it declares layer sections of its own.
//!
//! Reading the directory, writing files and running `keyd` happen outside this
//! crate; here is everything decided in between: what a config file binds,
//! what the managed block looks like, and how a file changes when it is added
//! or removed.
use vstd::prelude::*;
use crate::accel::{
    keyd_layer_spec, model, modifiers_from_layer_spec, parse_spec, to_keyd_spec, Accel, Modifiers,
};
use crate::config::binding_models;
use crate::text::{
    chars_of, eq_chars, find_char, first_index, is_ws, lex_lt, lines, lines_of, push_all,
    push_str, same, slice, split, split_chars, string_of, trim, trim_chars, views, words,
    words_of,
};

verus! {

/// Directory keyd reads its configuration from.
pub const CONFIG_DIR: &'static str = "/etc/keyd";

/// First line of the block RatClick manages in a keyd config.
pub const BEGIN: &'static str = "# >>> ratclick begin (managed by RatClick — do not edit) >>>";

/// Last line of the block RatClick manages in a keyd config.
pub const END: &'static str = "# <<< ratclick end <<<";

/// Why keyd cannot be used, when it cannot.
#[derive(Debug, Clone, PartialEq, Eq)]
pub enum Availability {
    Ready { version: String },
    NotInstalled,
    /// Installed but the service is not running, so bindings would not apply.
    ServiceStopped,
}

pub open spec fn explain_spec(a: Availability) -> Seq<char> {
    match a {
        Availability::Ready { version } => "keyd "@ + version@ + " is running"@,
        Availability::NotInstalled => "keyd is not installed (`apt install keyd` / `dnf install keyd`)"@,
        Availability::ServiceStopped => "keyd is installed but not running (`sudo systemctl enable --now keyd`)"@,
    }
}

/// `str::trim_start_matches('v')`.
pub open spec fn trim_v(s: Seq<char>) -> Seq<char>
    decreases s.len(),
{
    if s.len() > 0 && s[0] == 'v' {
        trim_v(s.drop_first())
    } else {
        s
    }
}

/// The version `keyd --version` reports: its second word, without a leading `v`.
pub open spec fn version_spec(out: Seq<char>) -> Seq<char> {
    trim_v(if words(out).len() > 1 { words(out)[1] } else { "?"@ })
}

impl Availability {
    pub fn is_ready(&self) -> (b: bool)
        ensures
            b == (self is Ready),
    {
        match self {
            Availability::Ready { .. } => true,
            _ => false,
        }
    }

    pub fn explain(&self) -> (s: String)
        ensures
            s@ == explain_spec(*self),
    {
        match self {
            Availability::Ready { version } => {
                let mut out: Vec<char> = Vec::new();
                push_str(&mut out, "keyd ");
                push_all(&mut out, &chars_of(version.as_str()));
                push_str(&mut out, " is running");
                string_of(&out)
            },
            Availability::NotInstalled => string_of(
                &chars_of("keyd is not installed (`apt install keyd` / `dnf install keyd`)"),
            ),
            Availability::ServiceStopped => string_of(
                &chars_of("keyd is installed but not running (`sudo systemctl enable --now keyd`)"),
            ),
        }
    }
}

/// Decide keyd's availability from what was observed: the standard output of
/// a successful `keyd --version` (`None` when it could not be run or failed)
/// and whether the `keyd` service is active.
pub fn availability_from(version_output: Option<&str>, running: bool) -> (a: Availability)
    ensures
        version_output is None ==> a is NotInstalled,
        version_output matches Some(out) ==> (if running {
            a matches Availability::Ready { version } && version@ == version_spec(out@)
        } else {
            a is ServiceStopped
        }),
{
    match version_output {
        None => Availability::NotInstalled,
        Some(out) => {
            let ws = words_of(&chars_of(out));
            let w = if ws.len() > 1 {
                assert(views(ws@)[1] == ws@[1]@);
                let x = slice(&ws[1], 0, ws[1].len());
                assert(x@ =~= ws@[1]@);
                x
            } else {
                chars_of("?")
            };
            assert(w@ == (if words(out@).len() > 1 { words(out@)[1] } else { "?"@ }));
            let mut i: usize = 0;
            assert(w@.subrange(0, w@.len() as int) =~= w@);
            while i < w.len() && w[i] == 'v'
                invariant
                    i <= w.len(),
                    trim_v(w@) == trim_v(w@.subrange(i as int, w@.len() as int)),
                decreases w.len() - i,
            {
                assert(w@.subrange(i as int, w@.len() as int).drop_first() =~= w@.subrange(
                    i + 1,
                    w@.len() as int,
                ));
                i = i + 1;
            }
            assert(trim_v(w@.subrange(i as int, w@.len() as int)) == w@.subrange(
                i as int,
                w@.len() as int,
            ));
            if running {
                Availability::Ready { version: string_of(&slice(&w, i, w.len())) }
            } else {
                Availability::ServiceStopped
            }
        },
    }
}

/// A binding found in a keyd config file.
#[derive(Debug)]
pub struct Binding {
    pub accel: Accel,
    /// The config file it was found in.
    pub file: String,
    /// The layer it was declared in, e.g. `main`.
    pub layer: String,
    /// Right-hand side of the mapping, for display.
    pub action: String,
    /// True when the line sits inside RatClick's own managed block.
    pub ours: bool,
}

impl Clone for Binding {
    fn clone(&self) -> (r: Self)
        ensures
            r == *self,
    {
        Binding {
            accel: self.accel.clone(),
            file: self.file.clone(),
            layer: self.layer.clone(),
            action: self.action.clone(),
            ours: self.ours,
        }
    }
}

/// What a binding says: modifiers, key, layer, action and whether it is ours.
pub open spec fn entry(b: Binding) -> (u8, Seq<char>, Seq<char>, Seq<char>, bool) {
    (b.accel.mods.bits(), b.accel.key@, b.layer@, b.action@, b.ours)
}

pub open spec fn entries(v: Seq<Binding>) -> Seq<(u8, Seq<char>, Seq<char>, Seq<char>, bool)> {
    v.map_values(|b: Binding| entry(b))
}

/// The path components that name something: no empty ones, no `.`.
pub open spec fn named_parts(ps: Seq<Seq<char>>) -> Seq<Seq<char>>
    decreases ps.len(),
{
    if ps.len() == 0 {
        Seq::empty()
    } else {
        let r = named_parts(ps.drop_last());
        let p = ps.last();
        if p.len() == 0 || p == "."@ {
            r
        } else {
            r.push(p)
        }
    }
}

/// `Path::file_name`, empty where there is none (a root, or a path ending in `..`).
pub open spec fn file_name_spec(path: Seq<char>) -> Seq<char> {
    let c = named_parts(split(path, '/'));
    if c.len() == 0 || c.last() == ".."@ {
        Seq::empty()
    } else {
        c.last()
    }
}

fn file_name(path: &[char]) -> (r: Vec<char>)
    ensures
        r@ == file_name_spec(path@),
{
    let parts = split_chars(path, '/');
    let ghost ps = views(parts@);
    let mut last: Vec<char> = Vec::new();
    let mut any = false;
    let mut i: usize = 0;
    while i < parts.len()
        invariant
            i <= parts.len(),
            ps == views(parts@),
            any == (named_parts(ps.subrange(0, i as int)).len() > 0),
            any ==> last@ == named_parts(ps.subrange(0, i as int)).last(),
        decreases parts.len() - i,
    {
        assert(ps.subrange(0, i + 1).drop_last() =~= ps.subrange(0, i as int));
        assert(ps[i as int] == parts@[i as int]@);
        let p = &parts[i];
        if !(p.len() == 0 || same(p, ".")) {
            last = slice(p, 0, p.len());
            assert(last@ =~= p@);
            any = true;
        }
        i = i + 1;
    }
    assert(ps.subrange(0, ps.len() as int) =~= ps);
    if !any || same(&last, "..") {
        Vec::new()
    } else {
        last
    }
}

pub open spec fn describe_spec(b: Binding) -> Seq<char> {
    "keyd ["@ + b.layer@ + "] in "@ + file_name_spec(b.file@) + ": "@ + to_keyd_spec(
        b.accel.mods.bits(),
        b.accel.key@,
    ) + " → "@ + b.action@
}

impl Binding {
    pub fn describe(&self) -> (s: String)
        ensures
            s@ == describe_spec(*self),
    {
        let mut out: Vec<char> = Vec::new();
        push_str(&mut out, "keyd [");
        push_all(&mut out, &chars_of(self.layer.as_str()));
        push_str(&mut out, "] in ");
        push_all(&mut out, &file_name(&chars_of(self.file.as_str())));
        push_str(&mut out, ": ");
        push_all(&mut out, &chars_of(self.accel.to_keyd().as_str()));
        push_str(&mut out, " → ");
        push_all(&mut out, &chars_of(self.action.as_str()));
        string_of(&out)
    }
}

// ---------------------------------------------------------------------------
// Reading a config file
// ---------------------------------------------------------------------------

/// The section a `[...]` header line opens.
pub open spec fn header_spec(t: Seq<char>) -> Option<Seq<char>> {
    if t.len() >= 2 && t[0] == '[' && t.last() == ']' {
        Some(t.subrange(1, t.len() - 1))
    } else {
        None
    }
}

/// A layer header may name a base layer (`[nav:C]`); the layer is what comes
/// before the colon.
pub open spec fn layer_of_section(sec: Seq<char>) -> Seq<char> {
    match first_index(sec, ':') {
        Some(i) => sec.subrange(0, i),
        None => sec,
    }
}

/// What a `key = action` line in `layer` binds, as modifiers, key and action.
///
/// Nothing when the line has no `=`, when the layer is not made only of
/// modifier layers (such a layer is reachable only while another key is held),
/// or when the left-hand side is not a bare key.
pub open spec fn mapping_spec(t: Seq<char>, layer: Seq<char>) -> Option<(u8, Seq<char>, Seq<char>)> {
    match first_index(t, '=') {
        None => None,
        Some(i) => match modifiers_from_layer_spec(layer) {
            None => None,
            Some(m) => match parse_spec(trim(t.subrange(0, i))) {
                Ok(k) => if k.0 == 0 {
                    Some((m, k.1, trim(t.subrange(i + 1, t.len() as int))))
                } else {
                    None
                },
                Err(_) => None,
            },
        },
    }
}

/// Reading state: current layer, whether inside `[ids]`, whether inside our
/// block, and the bindings found so far.
pub open spec fn read_step(
    st: (Seq<char>, bool, bool, Seq<(u8, Seq<char>, Seq<char>, Seq<char>, bool)>),
    line: Seq<char>,
) -> (Seq<char>, bool, bool, Seq<(u8, Seq<char>, Seq<char>, Seq<char>, bool)>) {
    let (layer, in_ids, ours, found) = st;
    let t = trim(line);
    if t == BEGIN@ {
        (layer, in_ids, true, found)
    } else if t == END@ {
        (layer, in_ids, false, found)
    } else if t.len() == 0 || t[0] == '#' {
        st
    } else {
        match header_spec(t) {
            Some(sec) => if sec == "ids"@ {
                (layer, true, ours, found)
            } else {
                (layer_of_section(sec), false, ours, found)
            },
            None => if in_ids {
                st
            } else {
                match mapping_spec(t, layer) {
                    Some(x) => (layer, in_ids, ours, found.push((x.0, x.1, layer, x.2, ours))),
                    None => st,
                }
            },
        }
    }
}

pub open spec fn read_lines(ls: Seq<Seq<char>>) -> (
    Seq<char>,
    bool,
    bool,
    Seq<(u8, Seq<char>, Seq<char>, Seq<char>, bool)>,
)
    decreases ls.len(),
{
    if ls.len() == 0 {
        ("main"@, false, false, Seq::empty())
    } else {
        read_step(read_lines(ls.drop_last()), ls.last())
    }
}

/// Every mapping a keyd config text declares, in order.
pub open spec fn parse_config_spec(text: Seq<char>) -> Seq<(u8, Seq<char>, Seq<char>, Seq<char>, bool)> {
    read_lines(lines(text)).3
}

fn header_of(t: &[char]) -> (r: Option<Vec<char>>)
    ensures
        r matches Some(x) ==> header_spec(t@) == Some(x@),
        r is None ==> header_spec(t@) is None,
{
    if t.len() >= 2 && t[0] == '[' && t[t.len() - 1] == ']' {
        Some(slice(t, 1, t.len() - 1))
    } else {
        None
    }
}

fn mapping_of(t: &[char], layer: &[char]) -> (r: Option<(Accel, Vec<char>)>)
    ensures
        r matches Some(x) ==> mapping_spec(t@, layer@) == Some((x.0.mods.bits(), x.0.key@, x.1@)),
        r is None ==> mapping_spec(t@, layer@) is None,
{
    match find_char(t, '=') {
        None => None,
        Some(i) => {
            let layer_name = string_of(layer);
            match Accel::modifiers_from_keyd_layer(layer_name.as_str()) {
                None => None,
                Some(m) => {
                    let lhs = trim_chars(&slice(t, 0, i));
                    let lhs_text = string_of(&lhs);
                    match Accel::parse(lhs_text.as_str()) {
                        Ok(k) => {
                            if k.mods.is_empty() {
                                let act = trim_chars(&slice(t, i + 1, t.len()));
                                Some((Accel::new(m, k.key), act))
                            } else {
                                None
                            }
                        },
                        Err(_) => None,
                    }
                },
            }
        },
    }
}

/// Parse every mapping a keyd config declares, tagging each with `file`.
pub fn parse_config(text: &str, file: &str) -> (r: Vec<Binding>)
    ensures
        entries(r@) == parse_config_spec(text@),
        forall|i: int| 0 <= i < r@.len() ==> (#[trigger] r@[i]).file@ == file@,
{
    let ls = lines_of(&chars_of(text));
    let ghost lv = views(ls@);
    let mut layer: Vec<char> = chars_of("main");
    let mut in_ids = false;
    let mut ours = false;
    let mut out: Vec<Binding> = Vec::new();
    let mut i: usize = 0;
    while i < ls.len()
        invariant
            i <= ls.len(),
            lv == views(ls@),
            lv == lines(text@),
            read_lines(lv.subrange(0, i as int)) == (layer@, in_ids, ours, entries(out@)),
            forall|j: int| 0 <= j < out@.len() ==> (#[trigger] out@[j]).file@ == file@,
        decreases ls.len() - i,
    {
        assert(lv.subrange(0, i + 1).drop_last() =~= lv.subrange(0, i as int));
        assert(lv[i as int] == ls@[i as int]@);
        let t = trim_chars(&ls[i]);
        if same(&t, BEGIN) {
            ours = true;
        } else if same(&t, END) {
            ours = false;
        } else if t.len() == 0 || t[0] == '#' {
        } else {
            match header_of(&t) {
                Some(sec) => {
                    if same(&sec, "ids") {
                        in_ids = true;
                    } else {
                        in_ids = false;
                        layer = match find_char(&sec, ':') {
                            Some(c) => slice(&sec, 0, c),
                            None => slice(&sec, 0, sec.len()),
                        };
                        assert(layer@ =~= layer_of_section(sec@));
                    }
                },
                None => {
                    if !in_ids {
                        match mapping_of(&t, &layer) {
                            Some(x) => {
                                let ghost before = entries(out@);
                                let (a, act) = x;
                                let b = Binding {
                                    accel: a,
                                    file: string_of(&chars_of(file)),
                                    layer: string_of(&layer),
                                    action: string_of(&act),
                                    ours,
                                };
                                out.push(b);
                                assert(entries(out@) =~= before.push(entry(b)));
                            },
                            None => {},
                        }
                    }
                },
            }
        }
        i = i + 1;
    }
    assert(lv.subrange(0, lv.len() as int) =~= lv);
    out
}

/// Does a found binding collide with `a`? RatClick's own bindings never do.
pub open spec fn collides(b: Binding, a: Accel) -> bool {
    b.accel.mods == a.mods && b.accel.key@ == a.key@ && !b.ours
}

/// The bindings among `found` that collide with `a`, in order.
pub open spec fn conflicts_spec(found: Seq<Binding>, a: Accel) -> Seq<Binding>
    decreases found.len(),
{
    if found.len() == 0 {
        Seq::empty()
    } else {
        let r = conflicts_spec(found.drop_last(), a);
        if collides(found.last(), a) {
            r.push(found.last())
        } else {
            r
        }
    }
}

/// Bindings among those scanned that would collide with `accel`, excluding
/// RatClick's own.
pub fn conflicts_for(found: &[Binding], accel: &Accel) -> (r: Vec<Binding>)
    ensures
        r@ == conflicts_spec(found@, *accel),
{
    let mut r: Vec<Binding> = Vec::new();
    let mut i: usize = 0;
    while i < found.len()
        invariant
            i <= found.len(),
            r@ == conflicts_spec(found@.subrange(0, i as int), *accel),
        decreases found.len() - i,
    {
        assert(found@.subrange(0, i + 1).drop_last() =~= found@.subrange(0, i as int));
        let b = &found[i];
        if b.accel == *accel && !b.ours {
            r.push(b.clone());
        }
        i = i + 1;
    }
    assert(found@.subrange(0, found@.len() as int) =~= found@);
    r
}

/// The accelerators of RatClick's own bindings, each once, in the order first found.
pub open spec fn installed_spec(found: Seq<Binding>) -> Seq<(u8, Seq<char>)>
    decreases found.len(),
{
    if found.len() == 0 {
        Seq::empty()
    } else {
        let seen = installed_spec(found.drop_last());
        let b = found.last();
        if b.ours && !seen.contains(model(b.accel)) {
            seen.push(model(b.accel))
        } else {
            seen
        }
    }
}

pub(crate) fn contains_accel(v: &[Accel], a: &Accel) -> (r: bool)
    ensures
        r == binding_models(v@).contains(model(*a)),
{
    let mut i: usize = 0;
    while i < v.len()
        invariant
            i <= v.len(),
            forall|j: int| 0 <= j < i ==> binding_models(v@)[j] != model(*a),
        decreases v.len() - i,
    {
        assert(binding_models(v@)[i as int] == model(v@[i as int]));
        proof {
            if v@[i as int].mods.bits() == a.mods.bits() {
                Modifiers::lemma_bits_eq(v@[i as int].mods, a.mods);
            }
        }
        if v[i] == *a {
            return true;
        }
        i = i + 1;
    }
    false
}

/// Accelerators RatClick has installed in keyd, among the bindings scanned.
pub fn installed(found: &[Binding]) -> (r: Vec<Accel>)
    ensures
        binding_models(r@) == installed_spec(found@),
{
    let mut seen: Vec<Accel> = Vec::new();
    let mut i: usize = 0;
    while i < found.len()
        invariant
            i <= found.len(),
            binding_models(seen@) == installed_spec(found@.subrange(0, i as int)),
        decreases found.len() - i,
    {
        assert(found@.subrange(0, i + 1).drop_last() =~= found@.subrange(0, i as int));
        let b = &found[i];
        if b.ours && !contains_accel(&seen, &b.accel) {
            let ghost before = binding_models(seen@);
            seen.push(b.accel.clone());
            assert(binding_models(seen@) =~= before.push(model(b.accel)));
        }
        i = i + 1;
    }
    assert(found@.subrange(0, found@.len() as int) =~= found@);
    seen
}


// ---------------------------------------------------------------------------
// The managed block
// ---------------------------------------------------------------------------

/// The layer an accelerator with modifier bits `m` is bound in.
pub open spec fn layer_name(m: u8) -> Seq<char> {
    match keyd_layer_spec(m) {
        Some(l) => l,
        None => "main"@,
    }
}

/// The mapping line for one accelerator's key.
pub open spec fn command_line(key: Seq<char>, command: Seq<char>) -> Seq<char> {
    key + " = command("@ + command + ")\n"@
}

/// The mapping lines of the accelerators that belong in `layer`, in order.
pub open spec fn layer_body(accels: Seq<(u8, Seq<char>)>, layer: Seq<char>, command: Seq<char>) -> Seq<
    char,
>
    decreases accels.len(),
{
    if accels.len() == 0 {
        Seq::empty()
    } else {
        layer_body(accels.drop_last(), layer, command) + (if layer_name(accels.last().0) == layer {
            command_line(accels.last().1, command)
        } else {
            Seq::empty()
        })
    }
}

/// One `[layer]` section per layer, each with its mapping lines.
pub open spec fn layer_sections(
    layers: Seq<Seq<char>>,
    accels: Seq<(u8, Seq<char>)>,
    command: Seq<char>,
) -> Seq<char>
    decreases layers.len(),
{
    if layers.len() == 0 {
        Seq::empty()
    } else {
        layer_sections(layers.drop_last(), accels, command) + "["@ + layers.last() + "]\n"@
            + layer_body(accels, layers.last(), command)
    }
}

/// Strictly increasing character sequences.
pub open spec fn sorted_strict(s: Seq<Seq<char>>) -> bool {
    forall|i: int, j: int| 0 <= i < j < s.len() ==> lex_lt(#[trigger] s[i], #[trigger] s[j])
}

/// Some accelerator is bound in `layer`.
pub open spec fn uses_layer(accels: Seq<(u8, Seq<char>)>, layer: Seq<char>) -> bool {
    exists|k: int| 0 <= k < accels.len() && layer_name(#[trigger] accels[k].0) == layer
}

/// `layers` are the layers the accelerators use, each once, in increasing order.
pub open spec fn layer_order(layers: Seq<Seq<char>>, accels: Seq<(u8, Seq<char>)>) -> bool {
    &&& sorted_strict(layers)
    &&& forall|i: int| 0 <= i < layers.len() ==> uses_layer(accels, #[trigger] layers[i])
    &&& forall|k: int| 0 <= k < accels.len() ==> layers.contains(layer_name(#[trigger] accels[k].0))
}

/// The block RatClick appends to a keyd config, for these layers.
pub open spec fn block_spec(
    layers: Seq<Seq<char>>,
    accels: Seq<(u8, Seq<char>)>,
    command: Seq<char>,
) -> Seq<char> {
    BEGIN@ + "\n"@ + layer_sections(layers, accels, command) + END@ + "\n"@
}

fn layer_name_of(a: &Accel) -> (r: Vec<char>)
    ensures
        r@ == layer_name(a.mods.bits()),
{
    match a.to_keyd_layer() {
        Some(s) => chars_of(s.as_str()),
        None => chars_of("main"),
    }
}

/// Add `x` to a strictly sorted list of names, keeping it strictly sorted.
fn insert_layer(layers: &mut Vec<Vec<char>>, x: Vec<char>)
    requires
        sorted_strict(views(old(layers)@)),
    ensures
        sorted_strict(views(final(layers)@)),
        forall|y: Seq<char>|
            views(final(layers)@).contains(y) <==> (views(old(layers)@).contains(y) || y == x@),
{
    let ghost old_v = views(layers@);
    let mut j: usize = 0;
    while j < layers.len() && crate::text::less(&layers[j], &x)
        invariant
            j <= layers.len(),
            old_v == views(layers@),
            forall|q: int| 0 <= q < j ==> lex_lt(#[trigger] old_v[q], x@),
        decreases layers.len() - j,
    {
        assert(old_v[j as int] == layers@[j as int]@);
        j = j + 1;
    }
    if j < layers.len() {
        assert(old_v[j as int] == layers@[j as int]@);
        if eq_chars(&layers[j], &x) {
            assert(old_v.contains(x@));
            return ;
        }
        proof {
            crate::text::lemma_lex_total(old_v[j as int], x@);
        }
    }
    let ghost xv = x@;
    layers.insert(j, x);
    let ghost new_v = views(layers@);
    assert(new_v =~= old_v.insert(j as int, xv));
    assert forall|a: int, b: int| 0 <= a < b < new_v.len() implies lex_lt(
        #[trigger] new_v[a],
        #[trigger] new_v[b],
    ) by {
        if b < j {
        } else if b == j {
        } else if a < j {
            crate::text::lemma_lex_trans(new_v[a], xv, old_v[j as int]);
            if b - 1 > j {
                crate::text::lemma_lex_trans(new_v[a], old_v[j as int], old_v[b - 1]);
            }
        } else if a == j {
            if b - 1 > j {
                crate::text::lemma_lex_trans(xv, old_v[j as int], old_v[b - 1]);
            }
        } else {
            assert(new_v[a] == old_v[a - 1]);
            assert(new_v[b] == old_v[b - 1]);
        }
    }
    assert forall|y: Seq<char>| new_v.contains(y) <==> (old_v.contains(y) || y == xv) by {
        if new_v.contains(y) {
            let q = choose|q: int| 0 <= q < new_v.len() && new_v[q] == y;
            if q < j {
                assert(old_v[q] == y);
            } else if q > j {
                assert(old_v[q - 1] == y);
            }
        }
        if old_v.contains(y) {
            let q = choose|q: int| 0 <= q < old_v.len() && old_v[q] == y;
            if q < j {
                assert(new_v[q] == y);
            } else {
                assert(new_v[q + 1] == y);
            }
        }
        if y == xv {
            assert(new_v[j as int] == y);
        }
    }
}

/// Build the block RatClick appends to a keyd config.
///
/// Each accelerator becomes a bare key inside the modifier layer its modifiers
/// name, because that is the only left-hand-side form keyd accepts. Layers are
/// declared once each, in sorted order, so the output is deterministic and can
/// be compared with what is on disk.
pub fn managed_block(accels: &[Accel], command: &str) -> (r: String)
    ensures
        exists|layers: Seq<Seq<char>>|
            layer_order(layers, binding_models(accels@)) && r@ == block_spec(
                layers,
                binding_models(accels@),
                command@,
            ),
{
    let ghost models = binding_models(accels@);
    let mut names: Vec<Vec<char>> = Vec::new();
    let mut layers: Vec<Vec<char>> = Vec::new();
    let mut k: usize = 0;
    while k < accels.len()
        invariant
            k <= accels.len(),
            models == binding_models(accels@),
            names@.len() == k,
            forall|q: int| 0 <= q < k ==> #[trigger] views(names@)[q] == layer_name(models[q].0),
            sorted_strict(views(layers@)),
            forall|i: int|
                0 <= i < views(layers@).len() ==> views(names@).contains(
                    #[trigger] views(layers@)[i],
                ),
            forall|q: int| 0 <= q < k ==> views(layers@).contains(#[trigger] views(names@)[q]),
        decreases accels.len() - k,
    {
        let name = layer_name_of(&accels[k]);
        assert(models[k as int] == model(accels@[k as int]));
        let ghost before = views(layers@);
        let ghost old_names = views(names@);
        let copy = slice(&name, 0, name.len());
        assert(copy@ =~= name@);
        insert_layer(&mut layers, copy);
        names.push(name);
        assert(views(names@) =~= old_names.push(name@));
        assert forall|i: int| 0 <= i < views(layers@).len() implies views(names@).contains(
            #[trigger] views(layers@)[i],
        ) by {
            let y = views(layers@)[i];
            assert(views(layers@).contains(y));
            if before.contains(y) {
                let p = choose|p: int| 0 <= p < before.len() && before[p] == y;
                assert(old_names.contains(before[p]));
                let q = choose|q: int| 0 <= q < old_names.len() && old_names[q] == before[p];
                assert(views(names@)[q] == old_names[q]);
            } else {
                assert(views(names@)[k as int] == name@);
            }
        }
        assert forall|q: int| 0 <= q < k + 1 implies views(layers@).contains(
            #[trigger] views(names@)[q],
        ) by {
            if q < k {
                assert(views(names@)[q] == old_names[q]);
                assert(before.contains(old_names[q]));
            }
        }
        k = k + 1;
    }
    let ghost lv = views(layers@);
    let ghost cmd = command@;
    let cmd_chars = chars_of(command);
    let mut out: Vec<char> = Vec::new();
    push_str(&mut out, BEGIN);
    push_str(&mut out, "\n");
    let mut li: usize = 0;
    assert(lv.subrange(0, 0) =~= Seq::<Seq<char>>::empty());
    while li < layers.len()
        invariant
            li <= layers.len(),
            lv == views(layers@),
            names@.len() == accels.len(),
            models == binding_models(accels@),
            models.len() == accels.len(),
            cmd == command@,
            cmd_chars@ == cmd,
            forall|q: int| 0 <= q < names@.len() ==> #[trigger] views(names@)[q] == layer_name(
                models[q].0,
            ),
            out@ == BEGIN@ + "\n"@ + layer_sections(lv.subrange(0, li as int), models, cmd),
        decreases layers.len() - li,
    {
        let ghost base = out@;
        let ghost l = lv[li as int];
        assert(layers@[li as int]@ == l);
        push_str(&mut out, "[");
        push_all(&mut out, &layers[li]);
        push_str(&mut out, "]\n");
        let ghost head = out@;
        assert(head == base + "["@ + l + "]\n"@);
        let mut k: usize = 0;
        assert(models.subrange(0, 0) =~= Seq::<(u8, Seq<char>)>::empty());
        while k < accels.len()
            invariant
                k <= accels.len(),
                li < layers.len(),
                l == lv[li as int],
                lv == views(layers@),
                names@.len() == accels.len(),
                models == binding_models(accels@),
                cmd_chars@ == cmd,
                forall|q: int| 0 <= q < names@.len() ==> #[trigger] views(names@)[q] == layer_name(
                    models[q].0,
                ),
                out@ == head + layer_body(models.subrange(0, k as int), l, cmd),
            decreases accels.len() - k,
        {
            assert(models.subrange(0, k + 1).drop_last() =~= models.subrange(0, k as int));
            assert(views(names@)[k as int] == names@[k as int]@);
            assert(models[k as int] == model(accels@[k as int]));
            let ghost pre = out@;
            if eq_chars(&names[k], &layers[li]) {
                push_all(&mut out, &chars_of(accels[k].key.as_str()));
                push_str(&mut out, " = command(");
                push_all(&mut out, &cmd_chars);
                push_str(&mut out, ")\n");
                assert(out@ =~= pre + command_line(models[k as int].1, cmd));
            } else {
                assert(out@ =~= pre + Seq::<char>::empty());
            }
            k = k + 1;
        }
        assert(models.subrange(0, models.len() as int) =~= models);
        assert(lv.subrange(0, li + 1).drop_last() =~= lv.subrange(0, li as int));
        assert(out@ =~= BEGIN@ + "\n"@ + layer_sections(lv.subrange(0, li + 1), models, cmd));
        li = li + 1;
    }
    assert(lv.subrange(0, lv.len() as int) =~= lv);
    push_str(&mut out, END);
    push_str(&mut out, "\n");
    assert(out@ =~= block_spec(lv, models, cmd));
    proof {
        assert forall|i: int| 0 <= i < lv.len() implies uses_layer(models, #[trigger] lv[i]) by {
            assert(views(names@).contains(lv[i]));
            let q = choose|q: int| 0 <= q < names@.len() && views(names@)[q] == lv[i];
            assert(layer_name(models[q].0) == lv[i]);
        }
        assert forall|k: int| 0 <= k < models.len() implies lv.contains(
            layer_name(#[trigger] models[k].0),
        ) by {
            assert(views(names@)[k] == layer_name(models[k].0));
        }
        assert(layer_order(lv, models));
    }
    string_of(&out)
}


// ---------------------------------------------------------------------------
// Adding and removing the block
// ---------------------------------------------------------------------------

/// One line of the text being cleaned: markers switch skipping on and off,
/// every other line is kept (with its `\n`) unless it is being skipped.
pub open spec fn keep_step(st: (bool, Seq<char>), line: Seq<char>) -> (bool, Seq<char>) {
    let t = trim(line);
    if t == BEGIN@ {
        (true, st.1)
    } else if t == END@ {
        (false, st.1)
    } else if !st.0 {
        (st.0, st.1 + line + "\n"@)
    } else {
        st
    }
}

pub open spec fn keep_lines(st: (bool, Seq<char>), ls: Seq<Seq<char>>) -> (bool, Seq<char>)
    decreases ls.len(),
{
    if ls.len() == 0 {
        st
    } else {
        keep_step(keep_lines(st, ls.drop_last()), ls.last())
    }
}

/// Runs of two or more newlines shortened to two.
pub open spec fn squeeze(s: Seq<char>) -> Seq<char>
    decreases s.len(),
{
    if s.len() == 0 {
        s
    } else {
        let r = squeeze(s.drop_last());
        if s.last() == '\n' && r.len() >= 2 && r[r.len() - 1] == '\n' && r[r.len() - 2] == '\n' {
            r
        } else {
            r.push(s.last())
        }
    }
}

/// At most one newline left at the end.
pub open spec fn trim_blank_tail(s: Seq<char>) -> Seq<char>
    decreases s.len(),
{
    if s.len() >= 2 && s[s.len() - 1] == '\n' && s[s.len() - 2] == '\n' {
        trim_blank_tail(s.drop_last())
    } else {
        s
    }
}

/// `text` without RatClick's block, and without the blank lines it leaves.
pub open spec fn strip_spec(text: Seq<char>) -> Seq<char> {
    trim_blank_tail(squeeze(keep_lines((false, Seq::empty()), lines(text)).1))
}

/// Does some line of `s` read `[ids]`?
pub open spec fn has_ids_line(s: Seq<char>) -> bool {
    exists|i: int| 0 <= i < lines(s).len() && trim(#[trigger] lines(s)[i]) == "[ids]"@
}

/// `text` with its old block replaced by `block` at the end.
pub open spec fn splice_spec(text: Seq<char>, block: Seq<char>) -> Seq<char> {
    let c = strip_spec(text);
    let a = if c.len() > 0 && c.last() != '\n' {
        c.push('\n')
    } else {
        c
    };
    let b = if has_ids_line(c) {
        a
    } else {
        a + "[ids]\n*\n"@
    };
    b + "\n"@ + block
}

fn squeeze_chars(v: &[char]) -> (r: Vec<char>)
    ensures
        r@ == squeeze(v@),
{
    let mut r: Vec<char> = Vec::new();
    let mut i: usize = 0;
    assert(v@.subrange(0, 0) =~= Seq::<char>::empty());
    while i < v.len()
        invariant
            i <= v.len(),
            r@ == squeeze(v@.subrange(0, i as int)),
        decreases v.len() - i,
    {
        assert(v@.subrange(0, i + 1).drop_last() =~= v@.subrange(0, i as int));
        let c = v[i];
        let n = r.len();
        if !(c == '\n' && n >= 2 && r[n - 1] == '\n' && r[n - 2] == '\n') {
            r.push(c);
        }
        i = i + 1;
    }
    assert(v@.subrange(0, v@.len() as int) =~= v@);
    r
}

/// Remove any managed block from `text`.
///
/// The blank lines a removed block leaves behind are collapsed, including the
/// separator line `splice` puts before it, so removing and re-adding the block
/// is byte-for-byte reversible.
pub fn strip_managed(text: &str) -> (r: String)
    ensures
        r@ == strip_spec(text@),
{
    let ls = lines_of(&chars_of(text));
    let ghost lv = views(ls@);
    let mut skipping = false;
    let mut kept: Vec<char> = Vec::new();
    let mut i: usize = 0;
    while i < ls.len()
        invariant
            i <= ls.len(),
            lv == views(ls@),
            keep_lines((false, Seq::empty()), lv.subrange(0, i as int)) == (skipping, kept@),
        decreases ls.len() - i,
    {
        assert(lv.subrange(0, i + 1).drop_last() =~= lv.subrange(0, i as int));
        assert(lv[i as int] == ls@[i as int]@);
        let t = trim_chars(&ls[i]);
        if same(&t, BEGIN) {
            skipping = true;
        } else if same(&t, END) {
            skipping = false;
        } else if !skipping {
            push_all(&mut kept, &ls[i]);
            push_str(&mut kept, "\n");
        }
        i = i + 1;
    }
    assert(lv.subrange(0, lv.len() as int) =~= lv);
    let sq = squeeze_chars(&kept);
    let mut n = sq.len();
    assert(sq@.subrange(0, n as int) =~= sq@);
    while n >= 2 && sq[n - 1] == '\n' && sq[n - 2] == '\n'
        invariant
            n <= sq.len(),
            trim_blank_tail(sq@) == trim_blank_tail(sq@.subrange(0, n as int)),
        decreases n,
    {
        assert(sq@.subrange(0, n as int).drop_last() =~= sq@.subrange(0, n - 1));
        n = n - 1;
    }
    string_of(&slice(&sq, 0, n))
}

fn has_ids(c: &[char]) -> (b: bool)
    ensures
        b == has_ids_line(c@),
{
    let ls = lines_of(c);
    let mut i: usize = 0;
    while i < ls.len()
        invariant
            i <= ls.len(),
            views(ls@) == lines(c@),
            forall|j: int| 0 <= j < i ==> trim(#[trigger] lines(c@)[j]) != "[ids]"@,
        decreases ls.len() - i,
    {
        assert(views(ls@)[i as int] == ls@[i as int]@);
        if same(&trim_chars(&ls[i]), "[ids]") {
            assert(trim(lines(c@)[i as int]) == "[ids]"@);
            return true;
        }
        i = i + 1;
    }
    false
}

/// Append `block` to `text`, replacing any previous managed block.
///
/// The block goes at the end of the file, because it declares its own layer
/// sections and inserting those mid-file would move every following line of
/// the user's config into the last of them. A config without an `[ids]`
/// section matches no device, so one with the wildcard is supplied.
pub fn splice(text: &str, block: &str) -> (r: String)
    ensures
        r@ == splice_spec(text@, block@),
{
    let cleaned = strip_managed(text);
    let mut out = chars_of(cleaned.as_str());
    let ids = has_ids(&out);
    if out.len() > 0 && out[out.len() - 1] != '\n' {
        out.push('\n');
    }
    if !ids {
        push_str(&mut out, "[ids]\n*\n");
    }
    push_str(&mut out, "\n");
    push_all(&mut out, &chars_of(block));
    string_of(&out)
}

/// What a keyd config becomes when RatClick installs `accels` into it:
/// without the block when there is nothing to bind, with a fresh block
/// otherwise. `None` when the text would not change, so nothing needs writing.
pub fn updated_config(existing: &str, accels: &[Accel], command: &str) -> (r: Option<String>)
    ensures
        accels@.len() == 0 ==> (r is None <==> strip_spec(existing@) == existing@),
        accels@.len() == 0 ==> (r matches Some(t) ==> t@ == strip_spec(existing@)),
        accels@.len() > 0 ==> exists|layers: Seq<Seq<char>>|
            #![trigger layer_order(layers, binding_models(accels@))]
            {
                let want = splice_spec(
                    existing@,
                    block_spec(layers, binding_models(accels@), command@),
                );
                &&& layer_order(layers, binding_models(accels@))
                &&& (r is None <==> want == existing@)
                &&& (r matches Some(t) ==> t@ == want)
            },
{
    let updated = if accels.len() == 0 {
        strip_managed(existing)
    } else {
        let block = managed_block(accels, command);
        let ghost l = choose|l: Seq<Seq<char>>|
            layer_order(l, binding_models(accels@)) && block@ == block_spec(
                l,
                binding_models(accels@),
                command@,
            );
        let t = splice(existing, block.as_str());
        assert(layer_order(l, binding_models(accels@)));
        assert(t@ == splice_spec(existing@, block_spec(l, binding_models(accels@), command@)));
        t
    };
    let ghost want = updated@;
    if eq_chars(&chars_of(updated.as_str()), &chars_of(existing)) {
        None
    } else {
        Some(updated)
    }
}

/// What a keyd config becomes when RatClick's block is removed from it;
/// `None` when it holds no block, so nothing needs writing.
pub fn cleared_config(existing: &str) -> (r: Option<String>)
    ensures
        r is None <==> !crate::text::contains_seq(existing@, BEGIN@),
        r matches Some(t) ==> t@ == strip_spec(existing@),
{
    if !crate::text::contains_lit(&chars_of(existing), BEGIN) {
        return None;
    }
    Some(strip_managed(existing))
}

} // verus!
