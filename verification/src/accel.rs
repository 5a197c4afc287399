//! Keyboard accelerator parsing and conversion.
//!
//! RatClick speaks two dialects of "keyboard shortcut":
//!
//! * GTK/GNOME accelerator strings — `<Super><Shift>c`, `<Control><Alt>Delete`
//! * keyd bindings — `M-S-c`, `C-A-delete`
//!
//! [`Accel`] is the neutral representation both are parsed into, so conflict
//! detection can compare shortcuts written in different dialects.
use vstd::prelude::*;
use crate::text::{
    all_ascii, all_digits, chars_of, find_char, first_index, has, has_char, is_alnum,
    is_ascii_char, is_digit, join, lower, lower_chars, push_all, push_str, same, slice, split,
    split_chars, string_of, trim, trim_chars, upper, views,
};

verus! {

/// Modifier keys, stored as a small bitset so ordering never matters.
#[derive(Debug, Clone, Copy, PartialEq, Eq, Hash, Default, PartialOrd, Ord, Structural)]
pub struct Modifiers(u8);

pub const SHIFT_BIT: u8 = 1;
pub const CONTROL_BIT: u8 = 2;
pub const ALT_BIT: u8 = 4;
pub const SUPER_BIT: u8 = 8;

impl Modifiers {
    /// No modifier.
    pub fn none() -> (m: Modifiers)
        ensures
            m.bits() == 0,
    {
        Modifiers(0)
    }

    pub fn shift() -> (m: Modifiers)
        ensures
            m.bits() == SHIFT_BIT,
    {
        Modifiers(SHIFT_BIT)
    }

    pub fn control() -> (m: Modifiers)
        ensures
            m.bits() == CONTROL_BIT,
    {
        Modifiers(CONTROL_BIT)
    }

    pub fn alt() -> (m: Modifiers)
        ensures
            m.bits() == ALT_BIT,
    {
        Modifiers(ALT_BIT)
    }

    /// The Super (logo) key.
    pub fn super_key() -> (m: Modifiers)
        ensures
            m.bits() == SUPER_BIT,
    {
        Modifiers(SUPER_BIT)
    }

    /// The bitset: Shift is 1, Control 2, Alt 4, Super 8.
    pub closed spec fn bits(self) -> u8 {
        self.0
    }

    /// Is every modifier of `flag` held here?
    pub open spec fn has(self, flag: u8) -> bool {
        self.bits() & flag == flag
    }

    /// Only the four known modifier bits are ever set.
    pub open spec fn wf(self) -> bool {
        self.bits() < 16
    }

    /// The modifiers whose bits are `bits`; only the four known bits exist.
    pub fn from_bits(bits: u8) -> (m: Modifiers)
        requires
            bits < 16,
        ensures
            m.bits() == bits,
    {
        Modifiers(bits)
    }

    /// The bits themselves.
    pub fn raw(self) -> (b: u8)
        ensures
            b == self.bits(),
    {
        self.0
    }

    pub fn contains(self, other: Modifiers) -> (b: bool)
        ensures
            b == (self.bits() & other.bits() == other.bits()),
    {
        self.0 & other.0 == other.0
    }

    pub fn is_empty(self) -> (b: bool)
        ensures
            b == (self.bits() == 0),
    {
        self.0 == 0
    }

    /// The modifiers held in either set.
    pub fn union(self, other: Modifiers) -> (m: Modifiers)
        ensures
            m.bits() == self.bits() | other.bits(),
    {
        Modifiers(self.0 | other.0)
    }

    pub proof fn lemma_bits_eq(a: Modifiers, b: Modifiers)
        requires
            a.bits() == b.bits(),
        ensures
            a == b,
    {
    }
}

impl core::ops::BitOr for Modifiers {
    type Output = Modifiers;

    fn bitor(self, rhs: Modifiers) -> (m: Modifiers) {
        Modifiers(self.0 | rhs.0)
    }
}

impl vstd::std_specs::ops::BitOrSpecImpl for Modifiers {
    open spec fn obeys_bitor_spec() -> bool {
        true
    }

    open spec fn bitor_req(self, rhs: Modifiers) -> bool {
        true
    }

    closed spec fn bitor_spec(self, rhs: Modifiers) -> Modifiers {
        Modifiers(self.0 | rhs.0)
    }
}

/// Why a shortcut was rejected.
#[derive(Debug, Clone, PartialEq, Eq)]
pub enum AccelError {
    /// The shortcut is empty.
    Empty,
    /// The shortcut has no non-modifier key.
    NoKey(String),
    /// An unknown `<modifier>`.
    UnknownModifier(String),
    /// A `<` with no closing `>`.
    Unterminated(String),
    /// The key is not one RatClick knows how to bind.
    UnknownKey(String),
    /// A bare key would swallow normal typing.
    NeedsModifier(String),
}

/// What an [`AccelError`] says, with its text as characters.
pub enum AccelErr {
    Empty,
    NoKey(Seq<char>),
    UnknownModifier(Seq<char>),
    Unterminated(Seq<char>),
    UnknownKey(Seq<char>),
    NeedsModifier(Seq<char>),
}

impl View for AccelError {
    type V = AccelErr;

    open spec fn view(&self) -> AccelErr {
        match self {
            AccelError::Empty => AccelErr::Empty,
            AccelError::NoKey(s) => AccelErr::NoKey(s@),
            AccelError::UnknownModifier(s) => AccelErr::UnknownModifier(s@),
            AccelError::Unterminated(s) => AccelErr::Unterminated(s@),
            AccelError::UnknownKey(s) => AccelErr::UnknownKey(s@),
            AccelError::NeedsModifier(s) => AccelErr::NeedsModifier(s@),
        }
    }
}

impl AccelError {
    /// The message shown for this error.
    pub fn message(&self) -> (s: String)
        ensures
            s@ == error_message(self@),
    {
        let mut out: Vec<char> = Vec::new();
        match self {
            AccelError::Empty => {
                push_str(&mut out, "shortcut is empty");
            },
            AccelError::NoKey(s) => {
                push_str(&mut out, "shortcut `");
                push_all(&mut out, &chars_of(s.as_str()));
                push_str(&mut out, "` has no non-modifier key");
            },
            AccelError::UnknownModifier(s) => {
                push_str(&mut out, "unknown modifier `<");
                push_all(&mut out, &chars_of(s.as_str()));
                push_str(&mut out, ">`");
            },
            AccelError::Unterminated(s) => {
                push_str(&mut out, "unterminated `<` in shortcut `");
                push_all(&mut out, &chars_of(s.as_str()));
                push_str(&mut out, "`");
            },
            AccelError::UnknownKey(s) => {
                push_str(&mut out, "`");
                push_all(&mut out, &chars_of(s.as_str()));
                push_str(&mut out, "` is not a key RatClick knows how to bind");
            },
            AccelError::NeedsModifier(s) => {
                push_str(&mut out, "`");
                push_all(&mut out, &chars_of(s.as_str()));
                push_str(
                    &mut out,
                    "` needs at least one modifier — a bare key would swallow normal typing",
                );
            },
        }
        string_of(&out)
    }
}

pub open spec fn error_message(e: AccelErr) -> Seq<char> {
    match e {
        AccelErr::Empty => "shortcut is empty"@,
        AccelErr::NoKey(s) => "shortcut `"@ + s + "` has no non-modifier key"@,
        AccelErr::UnknownModifier(s) => "unknown modifier `<"@ + s + ">`"@,
        AccelErr::Unterminated(s) => "unterminated `<` in shortcut `"@ + s + "`"@,
        AccelErr::UnknownKey(s) => "`"@ + s + "` is not a key RatClick knows how to bind"@,
        AccelErr::NeedsModifier(s) => "`"@ + s
            + "` needs at least one modifier — a bare key would swallow normal typing"@,
    }
}

/// A parsed, dialect-neutral keyboard shortcut.
///
/// The `key` is stored in canonical lowercase evdev-ish form (`c`, `f9`,
/// `space`, `delete`), which is what keyd expects and what maps back to a GTK
/// keyname on demand.
#[derive(Debug, Eq, Hash, PartialOrd, Ord)]
pub struct Accel {
    pub mods: Modifiers,
    pub key: String,
}

impl Clone for Accel {
    fn clone(&self) -> (r: Self)
        ensures
            r == *self,
    {
        Accel { mods: self.mods, key: self.key.clone() }
    }
}

impl PartialEq for Accel {
    fn eq(&self, other: &Accel) -> (r: bool) {
        self.mods.0 == other.mods.0 && self.key == other.key
    }
}

impl vstd::std_specs::cmp::PartialEqSpecImpl for Accel {
    open spec fn obeys_eq_spec() -> bool {
        true
    }

    open spec fn eq_spec(&self, other: &Accel) -> bool {
        self.mods == other.mods && self.key@ == other.key@
    }
}

/// What an accelerator means: its modifier bits and its key.
pub open spec fn model(a: Accel) -> (u8, Seq<char>) {
    (a.mods.bits(), a.key@)
}

/// `a` is exactly what the parser produces: known modifiers and a canonical key.
pub open spec fn accel_wf(a: Accel) -> bool {
    a.mods.wf() && canonical_key_spec(a.key@) == Some(a.key@)
}

// ---------------------------------------------------------------------------
// Key names
// ---------------------------------------------------------------------------

pub open spec fn is_media_key(k: Seq<char>) -> bool {
    ||| k == "playpause"@
    ||| k == "stopcd"@
    ||| k == "nextsong"@
    ||| k == "previoussong"@
    ||| k == "mute"@
    ||| k == "volumeup"@
    ||| k == "volumedown"@
    ||| k == "brightnessup"@
    ||| k == "brightnessdown"@
    ||| k == "prog1"@
    ||| k == "prog2"@
    ||| k == "micmute"@
    ||| k == "calc"@
    ||| k == "search"@
}

fn media_key(k: &[char]) -> (b: bool)
    ensures
        b == is_media_key(k@),
{
    same(k, "playpause") || same(k, "stopcd") || same(k, "nextsong") || same(k, "previoussong")
        || same(k, "mute") || same(k, "volumeup") || same(k, "volumedown") || same(
        k,
        "brightnessup",
    ) || same(k, "brightnessdown") || same(k, "prog1") || same(k, "prog2") || same(k, "micmute")
        || same(k, "calc") || same(k, "search")
}

/// A function key name: `f` followed by one or more digits.
pub open spec fn is_fkey(k: Seq<char>) -> bool {
    k.len() > 1 && k[0] == 'f' && all_digits(k.drop_first())
}

fn fkey(k: &[char]) -> (b: bool)
    ensures
        b == is_fkey(k@),
{
    if k.len() <= 1 || k[0] != 'f' {
        return false;
    }
    let mut i: usize = 1;
    while i < k.len()
        invariant
            1 <= i <= k.len(),
            forall|j: int| 1 <= j < i ==> is_digit(#[trigger] k@[j]),
        decreases k.len() - i,
    {
        if !('0' <= k[i] && k[i] <= '9') {
            assert(k@.drop_first()[i - 1] == k@[i as int]);
            assert(!is_digit(k@.drop_first()[i - 1]));
            return false;
        }
        i = i + 1;
    }
    assert forall|j: int| 0 <= j < k@.drop_first().len() implies #[trigger] is_digit(
        k@.drop_first()[j],
    ) by {
        assert(k@.drop_first()[j] == k@[j + 1]);
    }
    true
}

pub open spec fn is_named_key(k: Seq<char>) -> bool {
    ||| k == "enter"@
    ||| k == "esc"@
    ||| k == "backspace"@
    ||| k == "delete"@
    ||| k == "insert"@
    ||| k == "pageup"@
    ||| k == "pagedown"@
    ||| k == "home"@
    ||| k == "end"@
    ||| k == "up"@
    ||| k == "down"@
    ||| k == "left"@
    ||| k == "right"@
    ||| k == "tab"@
    ||| k == "space"@
    ||| k == "dot"@
    ||| k == "comma"@
    ||| k == "minus"@
    ||| k == "equal"@
    ||| k == "slash"@
    ||| k == "backslash"@
    ||| k == "semicolon"@
    ||| k == "apostrophe"@
    ||| k == "grave"@
    ||| k == "leftbrace"@
    ||| k == "rightbrace"@
}

fn named_key(k: &[char]) -> (b: bool)
    ensures
        b == is_named_key(k@),
{
    same(k, "enter") || same(k, "esc") || same(k, "backspace") || same(k, "delete") || same(
        k,
        "insert",
    ) || same(k, "pageup") || same(k, "pagedown") || same(k, "home") || same(k, "end") || same(
        k,
        "up",
    ) || same(k, "down") || same(k, "left") || same(k, "right") || same(k, "tab") || same(
        k,
        "space",
    ) || same(k, "dot") || same(k, "comma") || same(k, "minus") || same(k, "equal") || same(
        k,
        "slash",
    ) || same(k, "backslash") || same(k, "semicolon") || same(k, "apostrophe") || same(k, "grave")
        || same(k, "leftbrace") || same(k, "rightbrace")
}

/// The spellings other dialects use for a key, mapped onto keyd's names.
pub open spec fn key_alias(l: Seq<char>) -> Seq<char> {
    if l == "return"@ || l == "enter"@ || l == "kp_enter"@ {
        "enter"@
    } else if l == "escape"@ || l == "esc"@ {
        "esc"@
    } else if l == "del"@ {
        "delete"@
    } else if l == "ins"@ {
        "insert"@
    } else if l == "page_up"@ || l == "prior"@ {
        "pageup"@
    } else if l == "page_down"@ || l == "next"@ {
        "pagedown"@
    } else if l == "spacebar"@ {
        "space"@
    } else if l == "period"@ || l == "."@ {
        "dot"@
    } else if l == ","@ {
        "comma"@
    } else if l == "-"@ {
        "minus"@
    } else if l == "="@ {
        "equal"@
    } else if l == "/"@ {
        "slash"@
    } else if l == "\\"@ {
        "backslash"@
    } else if l == ";"@ {
        "semicolon"@
    } else if l == "'"@ {
        "apostrophe"@
    } else if l == "`"@ {
        "grave"@
    } else if l == "bracketleft"@ || l == "["@ {
        "leftbrace"@
    } else if l == "bracketright"@ || l == "]"@ {
        "rightbrace"@
    } else if l == "audiomute"@ {
        "mute"@
    } else if l == "audioraisevolume"@ {
        "volumeup"@
    } else if l == "audiolowervolume"@ {
        "volumedown"@
    } else if l == "audioplay"@ {
        "playpause"@
    } else if l == "audionext"@ {
        "nextsong"@
    } else if l == "audioprev"@ {
        "previoussong"@
    } else {
        l
    }
}

fn alias(l: &[char]) -> (r: Vec<char>)
    ensures
        r@ == key_alias(l@),
{
    if same(l, "return") || same(l, "enter") || same(l, "kp_enter") {
        chars_of("enter")
    } else if same(l, "escape") || same(l, "esc") {
        chars_of("esc")
    } else if same(l, "del") {
        chars_of("delete")
    } else if same(l, "ins") {
        chars_of("insert")
    } else if same(l, "page_up") || same(l, "prior") {
        chars_of("pageup")
    } else if same(l, "page_down") || same(l, "next") {
        chars_of("pagedown")
    } else if same(l, "spacebar") {
        chars_of("space")
    } else if same(l, "period") || same(l, ".") {
        chars_of("dot")
    } else if same(l, ",") {
        chars_of("comma")
    } else if same(l, "-") {
        chars_of("minus")
    } else if same(l, "=") {
        chars_of("equal")
    } else if same(l, "/") {
        chars_of("slash")
    } else if same(l, "\\") {
        chars_of("backslash")
    } else if same(l, ";") {
        chars_of("semicolon")
    } else if same(l, "'") {
        chars_of("apostrophe")
    } else if same(l, "`") {
        chars_of("grave")
    } else if same(l, "bracketleft") || same(l, "[") {
        chars_of("leftbrace")
    } else if same(l, "bracketright") || same(l, "]") {
        chars_of("rightbrace")
    } else if same(l, "audiomute") {
        chars_of("mute")
    } else if same(l, "audioraisevolume") {
        chars_of("volumeup")
    } else if same(l, "audiolowervolume") {
        chars_of("volumedown")
    } else if same(l, "audioplay") {
        chars_of("playpause")
    } else if same(l, "audionext") {
        chars_of("nextsong")
    } else if same(l, "audioprev") {
        chars_of("previoussong")
    } else {
        slice(l, 0, l.len())
    }
}

/// A key name RatClick can bind.
pub open spec fn key_ok(m: Seq<char>) -> bool {
    ||| (m.len() == 1 && is_alnum(m[0]))
    ||| is_fkey(m)
    ||| is_named_key(m)
    ||| is_media_key(m)
}

/// Map a key name written in any of the dialects onto the canonical keyd name.
pub open spec fn canonical_key_spec(raw: Seq<char>) -> Option<Seq<char>> {
    let l = lower(trim(raw));
    if l.len() == 0 {
        None
    } else if key_ok(key_alias(l)) {
        Some(key_alias(l))
    } else {
        None
    }
}

fn canonical_key(raw: &[char]) -> (r: Option<Vec<char>>)
    ensures
        r matches Some(k) ==> canonical_key_spec(raw@) == Some(k@),
        r is None ==> canonical_key_spec(raw@) is None,
{
    let l = lower_chars(&trim_chars(raw));
    if l.len() == 0 {
        return None;
    }
    let mapped = alias(&l);
    let single = mapped.len() == 1 && (('0' <= mapped[0] && mapped[0] <= '9') || ('a' <= mapped[0]
        && mapped[0] <= 'z') || ('A' <= mapped[0] && mapped[0] <= 'Z'));
    if single || fkey(&mapped) || named_key(&mapped) || media_key(&mapped) {
        Some(mapped)
    } else {
        None
    }
}

/// GTK's spelling of a canonical key (inverse of the aliasing above).
pub open spec fn gtk_key_name_spec(k: Seq<char>) -> Seq<char> {
    if k == "enter"@ {
        "Return"@
    } else if k == "esc"@ {
        "Escape"@
    } else if k == "delete"@ {
        "Delete"@
    } else if k == "insert"@ {
        "Insert"@
    } else if k == "pageup"@ {
        "Page_Up"@
    } else if k == "pagedown"@ {
        "Page_Down"@
    } else if k == "backspace"@ {
        "BackSpace"@
    } else if k == "home"@ {
        "Home"@
    } else if k == "end"@ {
        "End"@
    } else if k == "up"@ {
        "Up"@
    } else if k == "down"@ {
        "Down"@
    } else if k == "left"@ {
        "Left"@
    } else if k == "right"@ {
        "Right"@
    } else if k == "tab"@ {
        "Tab"@
    } else if k == "dot"@ {
        "period"@
    } else if k == "leftbrace"@ {
        "bracketleft"@
    } else if k == "rightbrace"@ {
        "bracketright"@
    } else if k == "mute"@ {
        "AudioMute"@
    } else if k == "volumeup"@ {
        "AudioRaiseVolume"@
    } else if k == "volumedown"@ {
        "AudioLowerVolume"@
    } else if k == "playpause"@ {
        "AudioPlay"@
    } else if is_fkey(k) {
        seq!['F'] + k.drop_first()
    } else {
        k
    }
}

fn gtk_key_name(k: &[char]) -> (r: Vec<char>)
    ensures
        r@ == gtk_key_name_spec(k@),
{
    if same(k, "enter") {
        chars_of("Return")
    } else if same(k, "esc") {
        chars_of("Escape")
    } else if same(k, "delete") {
        chars_of("Delete")
    } else if same(k, "insert") {
        chars_of("Insert")
    } else if same(k, "pageup") {
        chars_of("Page_Up")
    } else if same(k, "pagedown") {
        chars_of("Page_Down")
    } else if same(k, "backspace") {
        chars_of("BackSpace")
    } else if same(k, "home") {
        chars_of("Home")
    } else if same(k, "end") {
        chars_of("End")
    } else if same(k, "up") {
        chars_of("Up")
    } else if same(k, "down") {
        chars_of("Down")
    } else if same(k, "left") {
        chars_of("Left")
    } else if same(k, "right") {
        chars_of("Right")
    } else if same(k, "tab") {
        chars_of("Tab")
    } else if same(k, "dot") {
        chars_of("period")
    } else if same(k, "leftbrace") {
        chars_of("bracketleft")
    } else if same(k, "rightbrace") {
        chars_of("bracketright")
    } else if same(k, "mute") {
        chars_of("AudioMute")
    } else if same(k, "volumeup") {
        chars_of("AudioRaiseVolume")
    } else if same(k, "volumedown") {
        chars_of("AudioLowerVolume")
    } else if same(k, "playpause") {
        chars_of("AudioPlay")
    } else if fkey(k) {
        let mut r: Vec<char> = Vec::new();
        r.push('F');
        let rest = slice(k, 1, k.len());
        push_all(&mut r, &rest);
        assert(k@.subrange(1, k@.len() as int) == k@.drop_first());
        r
    } else {
        slice(k, 0, k.len())
    }
}

/// Rust's `str::to_uppercase` (full Unicode case mapping) of `s`.
pub uninterp spec fn unicode_upper(s: Seq<char>) -> Seq<char>;

/// `str::to_uppercase`: Unicode upper case; on ASCII text, ASCII upper case.
#[verifier::external_body]
fn to_uppercase(s: &str) -> (r: String)
    ensures
        r@ == unicode_upper(s@),
        all_ascii(s@) ==> r@ == upper(s@),
{
    s.to_uppercase()
}

/// How the GUI names a key.
pub open spec fn display_key_name_spec(k: Seq<char>) -> Seq<char> {
    if k == "esc"@ {
        "Esc"@
    } else if k == "pageup"@ {
        "Page Up"@
    } else if k == "pagedown"@ {
        "Page Down"@
    } else if k == "leftbrace"@ {
        "["@
    } else if k == "rightbrace"@ {
        "]"@
    } else if k == "dot"@ {
        "."@
    } else if k == "comma"@ {
        ","@
    } else if k == "minus"@ {
        "-"@
    } else if k == "equal"@ {
        "="@
    } else if k == "slash"@ {
        "/"@
    } else if k == "backslash"@ {
        "\\"@
    } else if k == "semicolon"@ {
        ";"@
    } else if k == "apostrophe"@ {
        "'"@
    } else if k == "grave"@ {
        "`"@
    } else if k.len() == 1 && is_ascii_char(k[0]) {
        upper(k)
    } else if is_fkey(k) {
        upper(k)
    } else if k.len() == 0 {
        Seq::empty()
    } else {
        unicode_upper(seq![k[0]]) + k.drop_first()
    }
}

fn display_key_name(k: &[char]) -> (r: Vec<char>)
    ensures
        r@ == display_key_name_spec(k@),
{
    if same(k, "esc") {
        chars_of("Esc")
    } else if same(k, "pageup") {
        chars_of("Page Up")
    } else if same(k, "pagedown") {
        chars_of("Page Down")
    } else if same(k, "leftbrace") {
        chars_of("[")
    } else if same(k, "rightbrace") {
        chars_of("]")
    } else if same(k, "dot") {
        chars_of(".")
    } else if same(k, "comma") {
        chars_of(",")
    } else if same(k, "minus") {
        chars_of("-")
    } else if same(k, "equal") {
        chars_of("=")
    } else if same(k, "slash") {
        chars_of("/")
    } else if same(k, "backslash") {
        chars_of("\\")
    } else if same(k, "semicolon") {
        chars_of(";")
    } else if same(k, "apostrophe") {
        chars_of("'")
    } else if same(k, "grave") {
        chars_of("`")
    } else if (k.len() == 1 && (k[0] as u32) < 128) || fkey(k) {
        proof {
            if is_fkey(k@) {
                assert forall|j: int| 0 <= j < k@.len() implies #[trigger] is_ascii_char(k@[j]) by {
                    if j > 0 {
                        assert(k@.drop_first()[j - 1] == k@[j]);
                        assert(is_digit(k@.drop_first()[j - 1]));
                    } else {
                        assert(k@[0] == 'f');
                    }
                }
            }
        }
        let s = string_of(k);
        chars_of(to_uppercase(s.as_str()).as_str())
    } else if k.len() == 0 {
        Vec::new()
    } else {
        let first = string_of(&slice(k, 0, 1));
        let mut r = chars_of(to_uppercase(first.as_str()).as_str());
        push_all(&mut r, &slice(k, 1, k.len()));
        assert(k@.subrange(0, 1) == seq![k@[0]]);
        assert(k@.subrange(1, k@.len() as int) == k@.drop_first());
        r
    }
}

// ---------------------------------------------------------------------------
// Modifier names
// ---------------------------------------------------------------------------

/// The modifier bits a GTK `<name>` stands for (matched case-insensitively).
pub open spec fn gtk_modifier_spec(name: Seq<char>) -> Option<u8> {
    let l = lower(name);
    if l == "shift"@ || l == "shft"@ {
        Some(SHIFT_BIT)
    } else if l == "control"@ || l == "ctrl"@ || l == "ctl"@ || l == "primary"@ {
        Some(CONTROL_BIT)
    } else if l == "alt"@ || l == "mod1"@ || l == "meta"@ {
        Some(ALT_BIT)
    } else if l == "super"@ || l == "mod4"@ || l == "hyper"@ || l == "logo"@ || l == "win"@ {
        Some(SUPER_BIT)
    } else if l == "release"@ {
        Some(0)
    } else {
        None
    }
}

fn modifier_from_gtk(name: &[char]) -> (r: Option<Modifiers>)
    ensures
        r matches Some(m) ==> gtk_modifier_spec(name@) == Some(m.bits()),
        r is None ==> gtk_modifier_spec(name@) is None,
{
    let l = lower_chars(name);
    if same(&l, "shift") || same(&l, "shft") {
        Some(Modifiers::shift())
    } else if same(&l, "control") || same(&l, "ctrl") || same(&l, "ctl") || same(&l, "primary") {
        Some(Modifiers::control())
    } else if same(&l, "alt") || same(&l, "mod1") || same(&l, "meta") {
        Some(Modifiers::alt())
    } else if same(&l, "super") || same(&l, "mod4") || same(&l, "hyper") || same(&l, "logo")
        || same(&l, "win") {
        Some(Modifiers::super_key())
    } else if same(&l, "release") {
        Some(Modifiers::none())
    } else {
        None
    }
}

/// The modifier bits a keyd prefix letter (`C-`, `S-`, `A-`, `M-`/`G-`) stands for.
pub open spec fn keyd_prefix_spec(c: char) -> Option<u8> {
    if c == 'C' {
        Some(CONTROL_BIT)
    } else if c == 'S' {
        Some(SHIFT_BIT)
    } else if c == 'A' {
        Some(ALT_BIT)
    } else if c == 'M' || c == 'G' {
        Some(SUPER_BIT)
    } else {
        None
    }
}

// ---------------------------------------------------------------------------
// Parsing
// ---------------------------------------------------------------------------

/// The result of a parse as modifier bits and a key.
pub open spec fn ok_parts(mods: u8, key: Seq<char>) -> Result<(u8, Seq<char>), AccelErr> {
    Ok((mods, key))
}

/// Resolve the key of a shortcut once its modifiers are known.
pub open spec fn finish_spec(mods: u8, key: Seq<char>) -> Result<(u8, Seq<char>), AccelErr> {
    match canonical_key_spec(key) {
        Some(k) => Ok((mods, k)),
        None => Err(AccelErr::UnknownKey(key)),
    }
}

/// Consume leading `<modifier>` tokens from `rest`.
pub open spec fn gtk_spec(rest: Seq<char>, mods: u8, input: Seq<char>) -> Result<
    (u8, Seq<char>),
    AccelErr,
>
    decreases rest.len(),
{
    if rest.len() > 0 && rest[0] == '<' {
        match first_index(rest, '>') {
            None => Err(AccelErr::Unterminated(input)),
            Some(close) => {
                let name = rest.subrange(1, close);
                match gtk_modifier_spec(name) {
                    None => Err(AccelErr::UnknownModifier(name)),
                    Some(m) => if 0 < close < rest.len() {
                        gtk_spec(rest.subrange(close + 1, rest.len() as int), mods | m, input)
                    } else {
                        Err(AccelErr::Unterminated(input))
                    },
                }
            },
        }
    } else if rest.len() == 0 {
        Err(AccelErr::NoKey(input))
    } else {
        finish_spec(mods, rest)
    }
}

/// Consume leading keyd prefixes (`C-`, `S-`, …) from `rest`.
pub open spec fn keyd_spec(rest: Seq<char>, mods: u8, input: Seq<char>) -> Result<
    (u8, Seq<char>),
    AccelErr,
>
    decreases rest.len(),
{
    if rest.len() > 2 && rest[1] == '-' && keyd_prefix_spec(rest[0]) is Some {
        keyd_spec(
            rest.subrange(2, rest.len() as int),
            mods | keyd_prefix_spec(rest[0])->0,
            input,
        )
    } else if rest.len() == 0 {
        Err(AccelErr::NoKey(input))
    } else {
        finish_spec(mods, rest)
    }
}

/// What [`Accel::parse`] makes of `input`.
pub open spec fn parse_spec(input: Seq<char>) -> Result<(u8, Seq<char>), AccelErr> {
    let t = trim(input);
    if t.len() == 0 {
        Err(AccelErr::Empty)
    } else if has_char(t, '<') {
        gtk_spec(t, 0, t)
    } else if has_char(t, '-') && t.len() > 1 {
        keyd_spec(t, 0, t)
    } else {
        finish_spec(0, t)
    }
}

/// The parse result of an accelerator, as modifier bits and key.
pub open spec fn parsed(r: Result<Accel, AccelError>) -> Result<(u8, Seq<char>), AccelErr> {
    match r {
        Ok(a) => Ok(model(a)),
        Err(e) => Err(e@),
    }
}

/// Rendering of an accelerator in GTK syntax.
pub open spec fn to_gtk_spec(m: u8, key: Seq<char>) -> Seq<char> {
    (if m & CONTROL_BIT == CONTROL_BIT { "<Control>"@ } else { Seq::empty() }) + (if m & ALT_BIT
        == ALT_BIT {
        "<Alt>"@
    } else {
        Seq::empty()
    }) + (if m & SHIFT_BIT == SHIFT_BIT { "<Shift>"@ } else { Seq::empty() }) + (if m & SUPER_BIT
        == SUPER_BIT {
        "<Super>"@
    } else {
        Seq::empty()
    }) + gtk_key_name_spec(key)
}

/// Rendering of an accelerator in keyd macro notation.
pub open spec fn to_keyd_spec(m: u8, key: Seq<char>) -> Seq<char> {
    (if m & CONTROL_BIT == CONTROL_BIT { "C-"@ } else { Seq::empty() }) + (if m & ALT_BIT
        == ALT_BIT {
        "A-"@
    } else {
        Seq::empty()
    }) + (if m & SHIFT_BIT == SHIFT_BIT { "S-"@ } else { Seq::empty() }) + (if m & SUPER_BIT
        == SUPER_BIT {
        "M-"@
    } else {
        Seq::empty()
    }) + key
}

/// Names of the keyd modifier layers an accelerator's modifiers select, in order.
pub open spec fn layer_parts(m: u8) -> Seq<Seq<char>> {
    let a: Seq<Seq<char>> = if m & CONTROL_BIT == CONTROL_BIT {
        seq!["control"@]
    } else {
        Seq::empty()
    };
    let b = if m & ALT_BIT == ALT_BIT {
        a.push("alt"@)
    } else {
        a
    };
    let c = if m & SHIFT_BIT == SHIFT_BIT {
        b.push("shift"@)
    } else {
        b
    };
    if m & SUPER_BIT == SUPER_BIT {
        c.push("meta"@)
    } else {
        c
    }
}

/// The keyd layer an accelerator's key is bound in; `None` means `[main]`.
pub open spec fn keyd_layer_spec(m: u8) -> Option<Seq<char>> {
    if layer_parts(m).len() == 0 {
        None
    } else {
        Some(join(layer_parts(m), seq!['+']))
    }
}

/// Human-readable label, e.g. `Shift+Super+C`.
pub open spec fn to_display_spec(m: u8, key: Seq<char>) -> Seq<char> {
    (if m & CONTROL_BIT == CONTROL_BIT { "Ctrl+"@ } else { Seq::empty() }) + (if m & ALT_BIT
        == ALT_BIT {
        "Alt+"@
    } else {
        Seq::empty()
    }) + (if m & SHIFT_BIT == SHIFT_BIT { "Shift+"@ } else { Seq::empty() }) + (if m & SUPER_BIT
        == SUPER_BIT {
        "Super+"@
    } else {
        Seq::empty()
    }) + display_key_name_spec(key)
}

/// May an accelerator with these modifiers and this key be bound?
pub open spec fn validate_ok(m: u8, key: Seq<char>) -> bool {
    m != 0 || (key.len() > 1 && key[0] == 'f' && all_digits(key.drop_first())) || is_media_key(key)
}

/// The modifier bits a keyd layer name implies, when it is made only of modifier layers.
pub open spec fn layer_part_spec(p: Seq<char>) -> Option<u8> {
    let t = trim(p);
    if t == "control"@ || t == "ctrl"@ || t == "C"@ {
        Some(CONTROL_BIT)
    } else if t == "shift"@ || t == "S"@ {
        Some(SHIFT_BIT)
    } else if t == "alt"@ || t == "A"@ {
        Some(ALT_BIT)
    } else if t == "meta"@ || t == "super"@ || t == "M"@ || t == "G"@ {
        Some(SUPER_BIT)
    } else {
        None
    }
}

pub open spec fn layer_fold(parts: Seq<Seq<char>>) -> Option<u8>
    decreases parts.len(),
{
    if parts.len() == 0 {
        Some(0)
    } else {
        match (layer_fold(parts.drop_last()), layer_part_spec(parts.last())) {
            (Some(a), Some(b)) => Some(a | b),
            _ => None,
        }
    }
}

pub open spec fn modifiers_from_layer_spec(layer: Seq<char>) -> Option<u8> {
    if layer == "main"@ {
        Some(0)
    } else {
        layer_fold(split(layer, '+'))
    }
}

impl Accel {
    pub fn new(mods: Modifiers, key: String) -> (a: Accel)
        ensures
            a.mods == mods,
            a.key@ == key@,
    {
        Accel { mods, key }
    }

    /// Parse a GTK/GNOME accelerator string such as `<Super><Shift>c`.
    ///
    /// Also accepts keyd-style input (`M-S-c`) so that user-typed config is
    /// forgiving; the two syntaxes are unambiguous because GTK accelerators
    /// always use angle brackets.
    pub fn parse(input: &str) -> (r: Result<Accel, AccelError>)
        ensures
            parsed(r) == parse_spec(input@),
    {
        let v = chars_of(input);
        let t = trim_chars(&v);
        if t.len() == 0 {
            return Err(AccelError::Empty);
        }
        if has(&t, '<') {
            Self::parse_gtk(&t)
        } else if has(&t, '-') && t.len() > 1 {
            Self::parse_keyd(&t)
        } else {
            Self::finish(Modifiers::none(), &t)
        }
    }

    fn parse_gtk(input: &[char]) -> (r: Result<Accel, AccelError>)
        ensures
            parsed(r) == gtk_spec(input@, 0, input@),
    {
        let mut mods = Modifiers::none();
        let mut rest = slice(input, 0, input.len());
        assert(rest@ == input@);
        while rest.len() > 0 && rest[0] == '<'
            invariant
                gtk_spec(rest@, mods.bits(), input@) == gtk_spec(input@, 0, input@),
            decreases rest.len(),
        {
            let close = match find_char(&rest, '>') {
                Some(c) => c,
                None => {
                    return Err(AccelError::Unterminated(string_of(input)));
                },
            };
            proof {
                lemma_first_index_bounds(rest@, '>');
            }
            let name = slice(&rest, 1, close);
            let m = match modifier_from_gtk(&name) {
                Some(m) => m,
                None => {
                    return Err(AccelError::UnknownModifier(string_of(&name)));
                },
            };
            proof {
                lemma_first_index_bounds(rest@, '>');
            }
            mods = mods.union(m);
            rest = slice(&rest, close + 1, rest.len());
        }
        if rest.len() == 0 {
            return Err(AccelError::NoKey(string_of(input)));
        }
        Self::finish(mods, &rest)
    }

    fn parse_keyd(input: &[char]) -> (r: Result<Accel, AccelError>)
        ensures
            parsed(r) == keyd_spec(input@, 0, input@),
    {
        let mut mods = Modifiers::none();
        let mut rest = slice(input, 0, input.len());
        assert(rest@ == input@);
        while rest.len() > 2 && rest[1] == '-'
            invariant
                keyd_spec(rest@, mods.bits(), input@) == keyd_spec(input@, 0, input@),
            ensures
                keyd_spec(rest@, mods.bits(), input@) == keyd_spec(input@, 0, input@),
                !(rest@.len() > 2 && rest@[1] == '-' && keyd_prefix_spec(rest@[0]) is Some),
            decreases rest.len(),
        {
            let c = rest[0];
            let m = if c == 'C' {
                Modifiers::control()
            } else if c == 'S' {
                Modifiers::shift()
            } else if c == 'A' {
                Modifiers::alt()
            } else if c == 'M' || c == 'G' {
                Modifiers::super_key()
            } else {
                break ;
            };
            mods = mods.union(m);
            rest = slice(&rest, 2, rest.len());
        }
        if rest.len() == 0 {
            return Err(AccelError::NoKey(string_of(input)));
        }
        Self::finish(mods, &rest)
    }

    fn finish(mods: Modifiers, key: &[char]) -> (r: Result<Accel, AccelError>)
        ensures
            parsed(r) == finish_spec(mods.bits(), key@),
    {
        match canonical_key(key) {
            Some(k) => Ok(Accel { mods, key: string_of(&k) }),
            None => Err(AccelError::UnknownKey(string_of(key))),
        }
    }

    /// Reject shortcuts that would make the machine unusable.
    ///
    /// A binding with no modifiers steals a key from every application, so it
    /// is only allowed for keys that are not part of ordinary typing (function
    /// keys and the dedicated multimedia keys).
    pub fn validate(&self) -> (r: Result<(), AccelError>)
        ensures
            r is Ok <==> validate_ok(self.mods.bits(), self.key@),
            r matches Err(e) ==> e@ == AccelErr::NeedsModifier(
                to_gtk_spec(self.mods.bits(), self.key@),
            ),
    {
        if !self.mods.is_empty() {
            return Ok(());
        }
        let k = chars_of(self.key.as_str());
        let standalone_ok = k.len() > 1 && k[0] == 'f' && fkey(&k);
        if standalone_ok || media_key(&k) {
            Ok(())
        } else {
            Err(AccelError::NeedsModifier(self.to_gtk()))
        }
    }

    /// Render as a GTK/GNOME accelerator string, e.g. `<Super><Shift>c`.
    pub fn to_gtk(&self) -> (s: String)
        ensures
            s@ == to_gtk_spec(self.mods.bits(), self.key@),
    {
        let mut out: Vec<char> = Vec::new();
        if self.mods.contains(Modifiers::control()) {
            push_str(&mut out, "<Control>");
        }
        if self.mods.contains(Modifiers::alt()) {
            push_str(&mut out, "<Alt>");
        }
        if self.mods.contains(Modifiers::shift()) {
            push_str(&mut out, "<Shift>");
        }
        if self.mods.contains(Modifiers::super_key()) {
            push_str(&mut out, "<Super>");
        }
        push_all(&mut out, &gtk_key_name(&chars_of(self.key.as_str())));
        string_of(&out)
    }

    /// The keyd *layer* this accelerator's key must be bound in.
    ///
    /// keyd does not accept modifier prefixes on the left-hand side of a
    /// mapping, so a modified key is written bare inside the layer named by
    /// its modifiers (`[meta+shift]`). `None` means the key belongs in `[main]`.
    pub fn to_keyd_layer(&self) -> (r: Option<String>)
        ensures
            r matches Some(s) ==> keyd_layer_spec(self.mods.bits()) == Some(s@),
            r is None ==> keyd_layer_spec(self.mods.bits()) is None,
    {
        let ghost m = self.mods.bits();
        let mut parts: Vec<Vec<char>> = Vec::new();
        if self.mods.contains(Modifiers::control()) {
            parts.push(chars_of("control"));
        }
        if self.mods.contains(Modifiers::alt()) {
            parts.push(chars_of("alt"));
        }
        if self.mods.contains(Modifiers::shift()) {
            parts.push(chars_of("shift"));
        }
        if self.mods.contains(Modifiers::super_key()) {
            parts.push(chars_of("meta"));
        }
        assert(views(parts@) == layer_parts(m));
        if parts.len() == 0 {
            return None;
        }
        Some(string_of(&join_chars(&parts, '+')))
    }

    /// Reconstruct the modifiers implied by a keyd layer name.
    ///
    /// Returns `None` for a layer that is not built purely out of modifier
    /// layers — a user-defined layer like `[nav]` is only active while some
    /// other key is held, so a binding inside it is not a global shortcut.
    pub fn modifiers_from_keyd_layer(layer: &str) -> (r: Option<Modifiers>)
        ensures
            r matches Some(m) ==> modifiers_from_layer_spec(layer@) == Some(m.bits()),
            r is None ==> modifiers_from_layer_spec(layer@) is None,
    {
        let l = chars_of(layer);
        if same(&l, "main") {
            return Some(Modifiers::none());
        }
        let parts = split_chars(&l, '+');
        let mut mods = Modifiers::none();
        let mut i: usize = 0;
        assert(views(parts@).subrange(0, 0) == Seq::<Seq<char>>::empty());
        while i < parts.len()
            invariant
                i <= parts.len(),
                l@ == layer@,
                l@ != "main"@,
                views(parts@) == split(l@, '+'),
                layer_fold(views(parts@).subrange(0, i as int)) == Some(mods.bits()),
            decreases parts.len() - i,
        {
            assert(views(parts@)[i as int] == parts@[i as int]@);
            let p = trim_chars(&parts[i]);
            let m = if same(&p, "control") || same(&p, "ctrl") || same(&p, "C") {
                Modifiers::control()
            } else if same(&p, "shift") || same(&p, "S") {
                Modifiers::shift()
            } else if same(&p, "alt") || same(&p, "A") {
                Modifiers::alt()
            } else if same(&p, "meta") || same(&p, "super") || same(&p, "M") || same(&p, "G") {
                Modifiers::super_key()
            } else {
                assert(layer_part_spec(views(parts@)[i as int]) is None);
                proof {
                    lemma_layer_fold_none(views(parts@), i as int);
                }
                assert(l@ != "main"@);
                assert(layer_fold(split(layer@, '+')) is None);
                return None;
            };
            assert(views(parts@).subrange(0, i + 1).drop_last() == views(parts@).subrange(
                0,
                i as int,
            ));
            mods = mods.union(m);
            i = i + 1;
        }
        assert(views(parts@).subrange(0, parts@.len() as int) == views(parts@));
        Some(mods)
    }

    /// Render in keyd's *macro* notation, e.g. `M-S-c`.
    ///
    /// This is the form keyd accepts on the right-hand side of a mapping, and
    /// what `keyd monitor` prints; it is not valid on the left-hand side.
    pub fn to_keyd(&self) -> (s: String)
        ensures
            s@ == to_keyd_spec(self.mods.bits(), self.key@),
    {
        let mut out: Vec<char> = Vec::new();
        if self.mods.contains(Modifiers::control()) {
            push_str(&mut out, "C-");
        }
        if self.mods.contains(Modifiers::alt()) {
            push_str(&mut out, "A-");
        }
        if self.mods.contains(Modifiers::shift()) {
            push_str(&mut out, "S-");
        }
        if self.mods.contains(Modifiers::super_key()) {
            push_str(&mut out, "M-");
        }
        push_all(&mut out, &chars_of(self.key.as_str()));
        string_of(&out)
    }

    /// Human-readable label for the GUI, e.g. `Super+Shift+C`.
    pub fn to_display(&self) -> (s: String)
        ensures
            s@ == to_display_spec(self.mods.bits(), self.key@),
    {
        let mut out: Vec<char> = Vec::new();
        if self.mods.contains(Modifiers::control()) {
            push_str(&mut out, "Ctrl+");
        }
        if self.mods.contains(Modifiers::alt()) {
            push_str(&mut out, "Alt+");
        }
        if self.mods.contains(Modifiers::shift()) {
            push_str(&mut out, "Shift+");
        }
        if self.mods.contains(Modifiers::super_key()) {
            push_str(&mut out, "Super+");
        }
        push_all(&mut out, &display_key_name(&chars_of(self.key.as_str())));
        string_of(&out)
    }
}

proof fn lemma_layer_fold_none(parts: Seq<Seq<char>>, i: int)
    requires
        0 <= i < parts.len(),
        layer_part_spec(parts[i]) is None,
    ensures
        layer_fold(parts) is None,
    decreases parts.len(),
{
    if i < parts.len() - 1 {
        lemma_layer_fold_none(parts.drop_last(), i);
    }
}

proof fn lemma_first_index_bounds(s: Seq<char>, c: char)
    ensures
        first_index(s, c) matches Some(i) ==> 0 <= i < s.len() && s[i] == c,
    decreases s.len(),
{
    if s.len() > 0 && s[0] != c {
        lemma_first_index_bounds(s.drop_first(), c);
    }
}

/// Join character pieces with `sep` between them.
pub fn join_chars(parts: &Vec<Vec<char>>, sep: char) -> (r: Vec<char>)
    ensures
        r@ == join(views(parts@), seq![sep]),
{
    let mut r: Vec<char> = Vec::new();
    let mut i: usize = 0;
    while i < parts.len()
        invariant
            i <= parts.len(),
            r@ == join(views(parts@).subrange(0, i as int), seq![sep]),
        decreases parts.len() - i,
    {
        let ghost before = views(parts@).subrange(0, i as int);
        if i > 0 {
            r.push(sep);
        }
        push_all(&mut r, &parts[i]);
        assert(views(parts@).subrange(0, i + 1).drop_last() == before);
        i = i + 1;
    }
    assert(views(parts@).subrange(0, parts@.len() as int) == views(parts@));
    r
}

} // verus!
