//! Global-shortcut installation and conflict detection.
//!
//! Three backends can own RatClick's toggle key, and they are mutually
//! exclusive — installing one removes the others, so a shortcut can never end
//! up bound twice and toggling twice per press.
//!
//! Probing the desktop, running `gsettings` and `keyd`, and touching files
//! happen outside this crate; what is decided from their answers is here.
pub mod gvariant;
pub mod keyd;
pub mod keyd_laws;
pub mod gnome;
pub mod gnome_laws;
pub mod extension;

use vstd::prelude::*;
use crate::accel::{model, Accel};
use crate::config::{backend_name, ShortcutBackend};
use crate::text::{chars_of, join, push_all, push_str, string_of};
use crate::shortcut::gvariant::texts;

verus! {

/// Command a GNOME custom keybinding runs.
pub const TOGGLE_COMMAND: &'static str = "ratclick toggle";

/// Command keyd runs. keyd executes as root, so it goes through the dispatcher
/// that re-enters the logged-in user's session bus.
pub const KEYD_DISPATCH: &'static str = "/usr/libexec/ratclick/ratclick-keyd-dispatch toggle";

/// The distribution's own `gsettings`.
pub const SYSTEM_GSETTINGS: &'static str = "/usr/bin/gsettings";

/// Which `gsettings` to run: the system one when it exists, since one from a
/// second GLib installation may silently discard every write; otherwise
/// whatever `PATH` finds.
pub fn gsettings_bin(system_exists: bool) -> (s: &'static str)
    ensures
        system_exists ==> s@ == SYSTEM_GSETTINGS@,
        !system_exists ==> s@ == "gsettings"@,
{
    if system_exists {
        SYSTEM_GSETTINGS
    } else {
        "gsettings"
    }
}

/// Something else already owns an accelerator we want.
#[derive(Debug)]
pub enum Conflict {
    Gnome(gnome::Binding),
    Keyd(keyd::Binding),
}

impl Conflict {
    pub fn describe(&self) -> (s: String)
        ensures
            match self {
                Conflict::Gnome(b) => s@ == gnome::describe_owner(b.owner@),
                Conflict::Keyd(b) => s@ == keyd::describe_spec(*b),
            },
    {
        match self {
            Conflict::Gnome(b) => b.owner.describe(),
            Conflict::Keyd(b) => b.describe(),
        }
    }

    pub fn accel(&self) -> (a: &Accel)
        ensures
            match self {
                Conflict::Gnome(b) => *a == b.accel,
                Conflict::Keyd(b) => *a == b.accel,
            },
    {
        match self {
            Conflict::Gnome(b) => &b.accel,
            Conflict::Keyd(b) => &b.accel,
        }
    }
}

/// Whether a backend can be used right now, and why not if it cannot.
#[derive(Debug, Clone, PartialEq, Eq)]
pub struct BackendStatus {
    pub backend: ShortcutBackend,
    pub available: bool,
    pub detail: String,
}

pub open spec fn status_is(s: BackendStatus, backend: ShortcutBackend, available: bool, detail: Seq<char>) -> bool {
    s.backend == backend && s.available == available && s.detail@ == detail
}

/// Every backend, in the order the wizard offers them, with whether it can be
/// used and why not: from whether the GNOME backend is usable, the extension's
/// status and keyd's availability. Having no shortcut is always possible.
pub fn backend_statuses(gnome_ok: bool, ext: &extension::Status, keyd_av: &keyd::Availability) -> (r: Vec<
    BackendStatus,
>)
    ensures
        r@.len() == 4,
        status_is(
            r@[0],
            ShortcutBackend::Gnome,
            gnome_ok,
            if gnome_ok {
                "GNOME custom keybinding — no privileges needed"@
            } else {
                "requires an active GNOME session with the media-keys schema"@
            },
        ),
        status_is(r@[1], ShortcutBackend::Extension, ext.is_available, ext.detail@),
        status_is(r@[2], ShortcutBackend::Keyd, keyd_av is Ready, keyd::explain_spec(*keyd_av)),
        status_is(
            r@[3],
            ShortcutBackend::Off,
            true,
            "no global shortcut; toggle from the app, CLI or panel"@,
        ),
{
    let mut r: Vec<BackendStatus> = Vec::new();
    let gnome_detail = if gnome_ok {
        string_of(&chars_of("GNOME custom keybinding — no privileges needed"))
    } else {
        string_of(&chars_of("requires an active GNOME session with the media-keys schema"))
    };
    r.push(BackendStatus { backend: ShortcutBackend::Gnome, available: gnome_ok, detail: gnome_detail });
    r.push(
        BackendStatus {
            backend: ShortcutBackend::Extension,
            available: ext.is_available,
            detail: string_of(&chars_of(ext.detail.as_str())),
        },
    );
    r.push(
        BackendStatus {
            backend: ShortcutBackend::Keyd,
            available: keyd_av.is_ready(),
            detail: keyd_av.explain(),
        },
    );
    r.push(
        BackendStatus {
            backend: ShortcutBackend::Off,
            available: true,
            detail: string_of(&chars_of("no global shortcut; toggle from the app, CLI or panel")),
        },
    );
    r
}

pub open spec fn as_gnome(v: Seq<gnome::Binding>) -> Seq<Conflict> {
    v.map_values(|b: gnome::Binding| Conflict::Gnome(b))
}

pub open spec fn as_keyd(v: Seq<keyd::Binding>) -> Seq<Conflict> {
    v.map_values(|b: keyd::Binding| Conflict::Keyd(b))
}

/// Everything bound to `a` across every backend that can be seen: GNOME's
/// bindings when the GNOME backend is usable, then keyd's. A keyd binding
/// fires whatever backend RatClick uses, so it always counts.
pub open spec fn conflicts_spec(
    gnome_available: bool,
    gnome_found: Seq<gnome::Binding>,
    keyd_found: Seq<keyd::Binding>,
    a: Accel,
) -> Seq<Conflict> {
    (if gnome_available {
        as_gnome(gnome::gconflicts_spec(gnome_found, a))
    } else {
        Seq::empty()
    }) + as_keyd(keyd::conflicts_spec(keyd_found, a))
}

/// Everything already bound to `accel`, across every backend, from what was
/// scanned.
pub fn conflicts(
    gnome_available: bool,
    gnome_found: &[gnome::Binding],
    keyd_found: &[keyd::Binding],
    accel: &Accel,
) -> (r: Vec<Conflict>)
    ensures
        r@ == conflicts_spec(gnome_available, gnome_found@, keyd_found@, *accel),
{
    let mut out: Vec<Conflict> = Vec::new();
    if gnome_available {
        let g = gnome::conflicts_for(gnome_found, accel);
        let ghost gv = g@;
        let mut i: usize = 0;
        while i < g.len()
            invariant
                i <= g.len(),
                g@ == gv,
                out@ == as_gnome(gv.subrange(0, i as int)),
            decreases g.len() - i,
        {
            let b = g[i].clone();
            out.push(Conflict::Gnome(b));
            assert(as_gnome(gv.subrange(0, i + 1)) =~= as_gnome(gv.subrange(0, i as int)).push(
                Conflict::Gnome(b),
            ));
            i = i + 1;
        }
        assert(gv.subrange(0, gv.len() as int) =~= gv);
    }
    assert(out@ =~= (if gnome_available {
        as_gnome(gnome::gconflicts_spec(gnome_found@, *accel))
    } else {
        Seq::empty()
    }));
    let ghost base = out@;
    let k = keyd::conflicts_for(keyd_found, accel);
    let ghost kv = k@;
    let mut j: usize = 0;
    while j < k.len()
        invariant
            j <= k.len(),
            k@ == kv,
            out@ == base + as_keyd(kv.subrange(0, j as int)),
        decreases k.len() - j,
    {
        let b = k[j].clone();
        out.push(Conflict::Keyd(b));
        assert(as_keyd(kv.subrange(0, j + 1)) =~= as_keyd(kv.subrange(0, j as int)).push(
            Conflict::Keyd(b),
        ));
        j = j + 1;
    }
    assert(kv.subrange(0, kv.len() as int) =~= kv);
    out
}

/// Is `accel` free to take?
pub fn is_available(
    gnome_available: bool,
    gnome_found: &[gnome::Binding],
    keyd_found: &[keyd::Binding],
    accel: &Accel,
) -> (b: bool)
    ensures
        b == (conflicts_spec(gnome_available, gnome_found@, keyd_found@, *accel).len() == 0),
{
    conflicts(gnome_available, gnome_found, keyd_found, accel).len() == 0
}

pub open spec fn keyd_descriptions(v: Seq<keyd::Binding>) -> Seq<Seq<char>> {
    v.map_values(|b: keyd::Binding| keyd::describe_spec(b))
}

/// Taking `accel` by force: what was taken from GNOME (`taken`, the
/// descriptions the steal reported), and the keyd bindings that are refused —
/// someone else's keyd mapping is never rewritten, since a broken keyboard
/// config has no settings page to repair it from.
pub fn force_take(taken: Vec<String>, keyd_found: &[keyd::Binding], accel: &Accel) -> (r: (
    Vec<String>,
    Vec<String>,
))
    ensures
        r.0@ == taken@,
        texts(r.1@) == keyd_descriptions(keyd::conflicts_spec(keyd_found@, *accel)),
{
    let k = keyd::conflicts_for(keyd_found, accel);
    let mut refused: Vec<String> = Vec::new();
    let mut i: usize = 0;
    while i < k.len()
        invariant
            i <= k.len(),
            k@ == keyd::conflicts_spec(keyd_found@, *accel),
            texts(refused@) == keyd_descriptions(k@.subrange(0, i as int)),
        decreases k.len() - i,
    {
        let ghost before = texts(refused@);
        refused.push(k[i].describe());
        assert(texts(refused@) =~= before.push(keyd::describe_spec(k@[i as int])));
        assert(keyd_descriptions(k@.subrange(0, i + 1)) =~= keyd_descriptions(
            k@.subrange(0, i as int),
        ).push(keyd::describe_spec(k@[i as int])));
        i = i + 1;
    }
    assert(k@.subrange(0, k@.len() as int) =~= k@);
    (taken, refused)
}

/// What applying the shortcut settings did, for reporting back to the user.
#[derive(Debug, Clone)]
pub struct ApplyReport {
    pub backend: ShortcutBackend,
    pub installed: Vec<Accel>,
    /// Backends a stale binding was removed from.
    pub cleared: Vec<ShortcutBackend>,
    pub notes: Vec<String>,
}

impl Default for ApplyReport {
    fn default() -> (r: ApplyReport)
        ensures
            r.backend == ShortcutBackend::Gnome,
            r.installed@.len() == 0,
            r.cleared@.len() == 0,
            r.notes@.len() == 0,
    {
        ApplyReport {
            backend: ShortcutBackend::Gnome,
            installed: Vec::new(),
            cleared: Vec::new(),
            notes: Vec::new(),
        }
    }
}

/// The other backends that still hold a RatClick binding and are to be
/// cleared before installing with `current`, in the order GNOME, extension,
/// keyd. `gnome_has` counts only when the GNOME backend is usable.
pub open spec fn stale_spec(current: ShortcutBackend, gnome_has: bool, extension_has: bool, keyd_has: bool) -> Seq<
    ShortcutBackend,
> {
    let a: Seq<ShortcutBackend> = if current != ShortcutBackend::Gnome && gnome_has {
        seq![ShortcutBackend::Gnome]
    } else {
        Seq::empty()
    };
    let b = if current != ShortcutBackend::Extension && extension_has {
        a.push(ShortcutBackend::Extension)
    } else {
        a
    };
    if current != ShortcutBackend::Keyd && keyd_has {
        b.push(ShortcutBackend::Keyd)
    } else {
        b
    }
}

pub fn stale_backends(current: ShortcutBackend, gnome_has: bool, extension_has: bool, keyd_has: bool) -> (r:
    Vec<ShortcutBackend>)
    ensures
        r@ == stale_spec(current, gnome_has, extension_has, keyd_has),
{
    let mut r: Vec<ShortcutBackend> = Vec::new();
    if current != ShortcutBackend::Gnome && gnome_has {
        r.push(ShortcutBackend::Gnome);
    }
    if current != ShortcutBackend::Extension && extension_has {
        r.push(ShortcutBackend::Extension);
    }
    if current != ShortcutBackend::Keyd && keyd_has {
        r.push(ShortcutBackend::Keyd);
    }
    assert(r@ =~= stale_spec(current, gnome_has, extension_has, keyd_has));
    r
}

/// Record the outcome of removing a stale keyd binding: the number of files
/// rewritten, or why it could not be done (most often: no root). A failure is
/// noted and the apply goes on.
pub fn note_keyd_clear(report: &mut ApplyReport, outcome: Result<usize, String>)
    ensures
        final(report).backend == old(report).backend,
        final(report).installed == old(report).installed,
        outcome matches Ok(n) && n > 0 ==> final(report).cleared@ == old(report).cleared@.push(
            ShortcutBackend::Keyd,
        ) && final(report).notes@ == old(report).notes@,
        outcome matches Ok(n) && n == 0 ==> final(report).cleared@ == old(report).cleared@
            && final(report).notes@ == old(report).notes@,
        outcome matches Err(e) ==> final(report).cleared@ == old(report).cleared@ && texts(
            final(report).notes@,
        ) == texts(old(report).notes@).push("left the old keyd binding in place: "@ + e@),
{
    match outcome {
        Ok(n) => {
            if n > 0 {
                report.cleared.push(ShortcutBackend::Keyd);
            }
        },
        Err(e) => {
            let mut out: Vec<char> = Vec::new();
            push_str(&mut out, "left the old keyd binding in place: ");
            push_all(&mut out, &chars_of(e.as_str()));
            let ghost before = texts(report.notes@);
            report.notes.push(string_of(&out));
            assert(texts(report.notes@) =~= before.push("left the old keyd binding in place: "@ + e@));
        },
    }
}

/// Can the chosen backend be installed? GNOME needs its backend usable, keyd
/// needs to be ready; the message says what is missing.
pub fn install_check(backend: ShortcutBackend, gnome_available: bool, keyd_av: &keyd::Availability) -> (r:
    Result<(), String>)
    ensures
        backend == ShortcutBackend::Gnome && !gnome_available ==> (r matches Err(m) && m@
            == "the GNOME backend needs gsettings and the GNOME settings schemas"@),
        backend == ShortcutBackend::Keyd && !(keyd_av is Ready) ==> (r matches Err(m) && m@
            == keyd::explain_spec(*keyd_av)),
        !(backend == ShortcutBackend::Gnome && !gnome_available) && !(backend
            == ShortcutBackend::Keyd && !(keyd_av is Ready)) ==> r is Ok,
{
    if backend == ShortcutBackend::Gnome && !gnome_available {
        return Err(string_of(&chars_of("the GNOME backend needs gsettings and the GNOME settings schemas")));
    }
    if backend == ShortcutBackend::Keyd && !keyd_av.is_ready() {
        return Err(keyd_av.explain());
    }
    Ok(())
}

/// The note naming the keyd configs an install rewrote; none when it rewrote none.
pub fn updated_note(files: &[String]) -> (r: Option<String>)
    ensures
        files@.len() == 0 ==> r is None,
        files@.len() > 0 ==> (r matches Some(s) && s@ == "updated "@ + join(texts(files@), ", "@)),
{
    if files.len() == 0 {
        return None;
    }
    let mut out: Vec<char> = Vec::new();
    push_str(&mut out, "updated ");
    let ghost base = out@;
    let ghost fv = texts(files@);
    let mut i: usize = 0;
    assert(fv.subrange(0, 0) =~= Seq::<Seq<char>>::empty());
    while i < files.len()
        invariant
            i <= files.len(),
            fv == texts(files@),
            out@ == base + join(fv.subrange(0, i as int), ", "@),
        decreases files.len() - i,
    {
        assert(fv.subrange(0, i + 1).drop_last() =~= fv.subrange(0, i as int));
        assert(fv[i as int] == files@[i as int]@);
        let ghost before = out@;
        if i > 0 {
            push_str(&mut out, ", ");
        }
        push_all(&mut out, &chars_of(files[i].as_str()));
        proof {
            if i == 0 {
                assert(fv.subrange(0, 1) =~= seq![fv[0]]);
                assert(join(fv.subrange(0, 0), ", "@) =~= Seq::<char>::empty());
            }
        }
        assert(out@ =~= base + join(fv.subrange(0, i + 1), ", "@));
        i = i + 1;
    }
    assert(fv.subrange(0, fv.len() as int) =~= fv);
    Some(string_of(&out))
}

/// The backends to remove RatClick's shortcut from when removing it
/// everywhere: GNOME when it is usable, the extension always (it checks for
/// itself), keyd when it holds a binding.
pub fn removal_targets(gnome_available: bool, keyd_has: bool) -> (r: Vec<ShortcutBackend>)
    ensures
        r@ == (if gnome_available {
            seq![ShortcutBackend::Gnome]
        } else {
            Seq::<ShortcutBackend>::empty()
        }).push(ShortcutBackend::Extension) + (if keyd_has {
            seq![ShortcutBackend::Keyd]
        } else {
            Seq::<ShortcutBackend>::empty()
        }),
{
    let mut r: Vec<ShortcutBackend> = Vec::new();
    if gnome_available {
        r.push(ShortcutBackend::Gnome);
    }
    r.push(ShortcutBackend::Extension);
    if keyd_has {
        r.push(ShortcutBackend::Keyd);
    }
    assert(r@ =~= (if gnome_available {
        seq![ShortcutBackend::Gnome]
    } else {
        Seq::<ShortcutBackend>::empty()
    }).push(ShortcutBackend::Extension) + (if keyd_has {
        seq![ShortcutBackend::Keyd]
    } else {
        Seq::<ShortcutBackend>::empty()
    }));
    r
}


/// What a reset reports for one backend it removed RatClick's shortcut from:
/// whether it was done, and the line saying so, or saying why not.
pub fn reset_note(backend: ShortcutBackend, error: Option<&str>) -> (r: (bool, String))
    ensures
        error is None ==> r.0 && r.1@ == "removed the "@ + backend_name(backend) + " shortcut"@,
        error matches Some(e) ==> !r.0 && r.1@ == "could not remove the "@ + backend_name(backend)
            + " shortcut: "@ + e@,
{
    let mut out: Vec<char> = Vec::new();
    match error {
        None => {
            push_str(&mut out, "removed the ");
            push_str(&mut out, backend.as_str());
            push_str(&mut out, " shortcut");
            (true, string_of(&out))
        },
        Some(e) => {
            push_str(&mut out, "could not remove the ");
            push_str(&mut out, backend.as_str());
            push_str(&mut out, " shortcut: ");
            push_str(&mut out, e);
            (false, string_of(&out))
        },
    }
}

/// The backends are mutually exclusive: installing with one clears every
/// other backend that still holds a binding, and never the one in use.
pub proof fn law_backends_exclusive(current: ShortcutBackend, gnome_has: bool, extension_has: bool, keyd_has: bool)
    ensures
        !stale_spec(current, gnome_has, extension_has, keyd_has).contains(current),
        current != ShortcutBackend::Gnome && gnome_has ==> stale_spec(current, gnome_has, extension_has, keyd_has).contains(ShortcutBackend::Gnome),
        current != ShortcutBackend::Extension && extension_has ==> stale_spec(current, gnome_has, extension_has, keyd_has).contains(ShortcutBackend::Extension),
        current != ShortcutBackend::Keyd && keyd_has ==> stale_spec(current, gnome_has, extension_has, keyd_has).contains(ShortcutBackend::Keyd),
        !stale_spec(current, gnome_has, extension_has, keyd_has).contains(ShortcutBackend::Off),
{
    let s = stale_spec(current, gnome_has, extension_has, keyd_has);
    if s.contains(current) {
        let i = choose|i: int| 0 <= i < s.len() && s[i] == current;
    }
    if current != ShortcutBackend::Gnome && gnome_has {
        assert(s[0] == ShortcutBackend::Gnome);
    }
    if current != ShortcutBackend::Extension && extension_has {
        assert(s[s.len() - 1] == ShortcutBackend::Extension || s[s.len() - 2] == ShortcutBackend::Extension);
    }
    if current != ShortcutBackend::Keyd && keyd_has {
        assert(s[s.len() - 1] == ShortcutBackend::Keyd);
    }
}


proof fn lemma_keyd_none_collide(found: Seq<keyd::Binding>, a: Accel)
    ensures
        keyd::conflicts_spec(found, a).len() == 0 <==> forall|i: int|
            0 <= i < found.len() ==> !keyd::collides(#[trigger] found[i], a),
    decreases found.len(),
{
    if found.len() > 0 {
        let p = found.drop_last();
        lemma_keyd_none_collide(p, a);
        assert forall|i: int| 0 <= i < p.len() implies p[i] == found[i] by {}
        if keyd::conflicts_spec(found, a).len() == 0 {
            assert forall|i: int| 0 <= i < found.len() implies !keyd::collides(
                #[trigger] found[i],
                a,
            ) by {
                if i < p.len() {
                    assert(p[i] == found[i]);
                }
            }
        }
    }
}

proof fn lemma_gnome_none_collide(found: Seq<gnome::Binding>, a: Accel)
    ensures
        gnome::gconflicts_spec(found, a).len() == 0 <==> forall|i: int|
            0 <= i < found.len() ==> !gnome::gcollides(#[trigger] found[i], a),
    decreases found.len(),
{
    if found.len() > 0 {
        let p = found.drop_last();
        lemma_gnome_none_collide(p, a);
        assert forall|i: int| 0 <= i < p.len() implies p[i] == found[i] by {}
        if gnome::gconflicts_spec(found, a).len() == 0 {
            assert forall|i: int| 0 <= i < found.len() implies !gnome::gcollides(
                #[trigger] found[i],
                a,
            ) by {
                if i < p.len() {
                    assert(p[i] == found[i]);
                }
            }
        }
    }
}

/// An accelerator is free exactly when nothing but RatClick holds it: no
/// keyd binding of someone else's, and, where the GNOME backend is usable, no
/// GNOME binding but RatClick's own custom keybindings.
pub proof fn law_free_means_unclaimed(
    gnome_available: bool,
    gnome_found: Seq<gnome::Binding>,
    keyd_found: Seq<keyd::Binding>,
    a: Accel,
)
    ensures
        conflicts_spec(gnome_available, gnome_found, keyd_found, a).len() == 0 <==> ((forall|i: int|
            0 <= i < keyd_found.len() ==> !keyd::collides(#[trigger] keyd_found[i], a)) && (
        gnome_available ==> forall|i: int|
            0 <= i < gnome_found.len() ==> !gnome::gcollides(#[trigger] gnome_found[i], a))),
{
    lemma_keyd_none_collide(keyd_found, a);
    lemma_gnome_none_collide(gnome_found, a);
}

} // verus!
