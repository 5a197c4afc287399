//! Laws of accelerator parsing and rendering: what a rendering parses back to,
//! and why the order of modifiers never matters.
use vstd::prelude::*;
use crate::accel::{
    canonical_key_spec, finish_spec, ok_parts, gtk_key_name_spec, gtk_modifier_spec, gtk_spec, is_fkey,
    is_media_key, is_named_key, key_alias, key_ok, keyd_prefix_spec, keyd_spec, parse_spec,
    to_gtk_spec, to_keyd_spec, accel_wf, validate_ok, Accel, AccelErr, ALT_BIT, CONTROL_BIT, SHIFT_BIT,
    SUPER_BIT,
};
use crate::text::{
    all_digits, first_index, has_char, is_alnum, is_digit, is_ws, lemma_first_index, lower,
    lower_char, trim, trim_end, trim_start, upper, upper_char,
};

verus! {

/// The canonical names of the named keys, spelled out.
proof fn lemma_key_names()
    ensures
        "enter"@ == seq!['e', 'n', 't', 'e', 'r'],
        "esc"@ == seq!['e', 's', 'c'],
        "backspace"@ == seq!['b', 'a', 'c', 'k', 's', 'p', 'a', 'c', 'e'],
        "delete"@ == seq!['d', 'e', 'l', 'e', 't', 'e'],
        "insert"@ == seq!['i', 'n', 's', 'e', 'r', 't'],
        "pageup"@ == seq!['p', 'a', 'g', 'e', 'u', 'p'],
        "pagedown"@ == seq!['p', 'a', 'g', 'e', 'd', 'o', 'w', 'n'],
        "home"@ == seq!['h', 'o', 'm', 'e'],
        "end"@ == seq!['e', 'n', 'd'],
        "up"@ == seq!['u', 'p'],
        "down"@ == seq!['d', 'o', 'w', 'n'],
        "left"@ == seq!['l', 'e', 'f', 't'],
        "right"@ == seq!['r', 'i', 'g', 'h', 't'],
        "tab"@ == seq!['t', 'a', 'b'],
        "space"@ == seq!['s', 'p', 'a', 'c', 'e'],
        "dot"@ == seq!['d', 'o', 't'],
        "comma"@ == seq!['c', 'o', 'm', 'm', 'a'],
        "minus"@ == seq!['m', 'i', 'n', 'u', 's'],
        "equal"@ == seq!['e', 'q', 'u', 'a', 'l'],
        "slash"@ == seq!['s', 'l', 'a', 's', 'h'],
        "backslash"@ == seq!['b', 'a', 'c', 'k', 's', 'l', 'a', 's', 'h'],
        "semicolon"@ == seq!['s', 'e', 'm', 'i', 'c', 'o', 'l', 'o', 'n'],
        "apostrophe"@ == seq!['a', 'p', 'o', 's', 't', 'r', 'o', 'p', 'h', 'e'],
        "grave"@ == seq!['g', 'r', 'a', 'v', 'e'],
        "leftbrace"@ == seq!['l', 'e', 'f', 't', 'b', 'r', 'a', 'c', 'e'],
        "rightbrace"@ == seq!['r', 'i', 'g', 'h', 't', 'b', 'r', 'a', 'c', 'e'],
{
    reveal_strlit("enter");
    reveal_strlit("esc");
    reveal_strlit("backspace");
    reveal_strlit("delete");
    reveal_strlit("insert");
    reveal_strlit("pageup");
    reveal_strlit("pagedown");
    reveal_strlit("home");
    reveal_strlit("end");
    reveal_strlit("up");
    reveal_strlit("down");
    reveal_strlit("left");
    reveal_strlit("right");
    reveal_strlit("tab");
    reveal_strlit("space");
    reveal_strlit("dot");
    reveal_strlit("comma");
    reveal_strlit("minus");
    reveal_strlit("equal");
    reveal_strlit("slash");
    reveal_strlit("backslash");
    reveal_strlit("semicolon");
    reveal_strlit("apostrophe");
    reveal_strlit("grave");
    reveal_strlit("leftbrace");
    reveal_strlit("rightbrace");
}

/// The multimedia key names, spelled out.
proof fn lemma_media_names()
    ensures
        "playpause"@ == seq!['p', 'l', 'a', 'y', 'p', 'a', 'u', 's', 'e'],
        "stopcd"@ == seq!['s', 't', 'o', 'p', 'c', 'd'],
        "nextsong"@ == seq!['n', 'e', 'x', 't', 's', 'o', 'n', 'g'],
        "previoussong"@ == seq!['p', 'r', 'e', 'v', 'i', 'o', 'u', 's', 's', 'o', 'n', 'g'],
        "mute"@ == seq!['m', 'u', 't', 'e'],
        "volumeup"@ == seq!['v', 'o', 'l', 'u', 'm', 'e', 'u', 'p'],
        "volumedown"@ == seq!['v', 'o', 'l', 'u', 'm', 'e', 'd', 'o', 'w', 'n'],
        "brightnessup"@ == seq!['b', 'r', 'i', 'g', 'h', 't', 'n', 'e', 's', 's', 'u', 'p'],
        "brightnessdown"@ == seq!['b', 'r', 'i', 'g', 'h', 't', 'n', 'e', 's', 's', 'd', 'o', 'w', 'n'],
        "prog1"@ == seq!['p', 'r', 'o', 'g', '1'],
        "prog2"@ == seq!['p', 'r', 'o', 'g', '2'],
        "micmute"@ == seq!['m', 'i', 'c', 'm', 'u', 't', 'e'],
        "calc"@ == seq!['c', 'a', 'l', 'c'],
        "search"@ == seq!['s', 'e', 'a', 'r', 'c', 'h'],
{
    reveal_strlit("playpause");
    reveal_strlit("stopcd");
    reveal_strlit("nextsong");
    reveal_strlit("previoussong");
    reveal_strlit("mute");
    reveal_strlit("volumeup");
    reveal_strlit("volumedown");
    reveal_strlit("brightnessup");
    reveal_strlit("brightnessdown");
    reveal_strlit("prog1");
    reveal_strlit("prog2");
    reveal_strlit("micmute");
    reveal_strlit("calc");
    reveal_strlit("search");
}

/// The alternative spellings the parser accepts, spelled out.
proof fn lemma_alias_names()
    ensures
        "return"@ == seq!['r', 'e', 't', 'u', 'r', 'n'],
        "kp_enter"@ == seq!['k', 'p', '_', 'e', 'n', 't', 'e', 'r'],
        "escape"@ == seq!['e', 's', 'c', 'a', 'p', 'e'],
        "del"@ == seq!['d', 'e', 'l'],
        "ins"@ == seq!['i', 'n', 's'],
        "page_up"@ == seq!['p', 'a', 'g', 'e', '_', 'u', 'p'],
        "prior"@ == seq!['p', 'r', 'i', 'o', 'r'],
        "page_down"@ == seq!['p', 'a', 'g', 'e', '_', 'd', 'o', 'w', 'n'],
        "next"@ == seq!['n', 'e', 'x', 't'],
        "spacebar"@ == seq!['s', 'p', 'a', 'c', 'e', 'b', 'a', 'r'],
        "period"@ == seq!['p', 'e', 'r', 'i', 'o', 'd'],
        "."@ == seq!['.'],
        ","@ == seq![','],
        "-"@ == seq!['-'],
        "="@ == seq!['='],
        "/"@ == seq!['/'],
        "\\"@ == seq!['\\'],
        ";"@ == seq![';'],
        "'"@ == seq!['\''],
        "`"@ == seq!['`'],
        "bracketleft"@ == seq!['b', 'r', 'a', 'c', 'k', 'e', 't', 'l', 'e', 'f', 't'],
        "["@ == seq!['['],
        "bracketright"@ == seq!['b', 'r', 'a', 'c', 'k', 'e', 't', 'r', 'i', 'g', 'h', 't'],
        "]"@ == seq![']'],
        "audiomute"@ == seq!['a', 'u', 'd', 'i', 'o', 'm', 'u', 't', 'e'],
        "audioraisevolume"@ == seq!['a', 'u', 'd', 'i', 'o', 'r', 'a', 'i', 's', 'e', 'v', 'o', 'l', 'u', 'm', 'e'],
        "audiolowervolume"@ == seq!['a', 'u', 'd', 'i', 'o', 'l', 'o', 'w', 'e', 'r', 'v', 'o', 'l', 'u', 'm', 'e'],
        "audioplay"@ == seq!['a', 'u', 'd', 'i', 'o', 'p', 'l', 'a', 'y'],
        "audionext"@ == seq!['a', 'u', 'd', 'i', 'o', 'n', 'e', 'x', 't'],
        "audioprev"@ == seq!['a', 'u', 'd', 'i', 'o', 'p', 'r', 'e', 'v'],
{
    reveal_strlit("return");
    reveal_strlit("kp_enter");
    reveal_strlit("escape");
    reveal_strlit("del");
    reveal_strlit("ins");
    reveal_strlit("page_up");
    reveal_strlit("prior");
    reveal_strlit("page_down");
    reveal_strlit("next");
    reveal_strlit("spacebar");
    reveal_strlit("period");
    reveal_strlit(".");
    reveal_strlit(",");
    reveal_strlit("-");
    reveal_strlit("=");
    reveal_strlit("/");
    reveal_strlit("\\");
    reveal_strlit(";");
    reveal_strlit("'");
    reveal_strlit("`");
    reveal_strlit("bracketleft");
    reveal_strlit("[");
    reveal_strlit("bracketright");
    reveal_strlit("]");
    reveal_strlit("audiomute");
    reveal_strlit("audioraisevolume");
    reveal_strlit("audiolowervolume");
    reveal_strlit("audioplay");
    reveal_strlit("audionext");
    reveal_strlit("audioprev");
}

/// GTK's key spellings, spelled out.
proof fn lemma_gtk_names()
    ensures
        "Return"@ == seq!['R', 'e', 't', 'u', 'r', 'n'],
        "Escape"@ == seq!['E', 's', 'c', 'a', 'p', 'e'],
        "Delete"@ == seq!['D', 'e', 'l', 'e', 't', 'e'],
        "Insert"@ == seq!['I', 'n', 's', 'e', 'r', 't'],
        "Page_Up"@ == seq!['P', 'a', 'g', 'e', '_', 'U', 'p'],
        "Page_Down"@ == seq!['P', 'a', 'g', 'e', '_', 'D', 'o', 'w', 'n'],
        "BackSpace"@ == seq!['B', 'a', 'c', 'k', 'S', 'p', 'a', 'c', 'e'],
        "Home"@ == seq!['H', 'o', 'm', 'e'],
        "End"@ == seq!['E', 'n', 'd'],
        "Up"@ == seq!['U', 'p'],
        "Down"@ == seq!['D', 'o', 'w', 'n'],
        "Left"@ == seq!['L', 'e', 'f', 't'],
        "Right"@ == seq!['R', 'i', 'g', 'h', 't'],
        "Tab"@ == seq!['T', 'a', 'b'],
        "AudioMute"@ == seq!['A', 'u', 'd', 'i', 'o', 'M', 'u', 't', 'e'],
        "AudioRaiseVolume"@ == seq!['A', 'u', 'd', 'i', 'o', 'R', 'a', 'i', 's', 'e', 'V', 'o', 'l', 'u', 'm', 'e'],
        "AudioLowerVolume"@ == seq!['A', 'u', 'd', 'i', 'o', 'L', 'o', 'w', 'e', 'r', 'V', 'o', 'l', 'u', 'm', 'e'],
        "AudioPlay"@ == seq!['A', 'u', 'd', 'i', 'o', 'P', 'l', 'a', 'y'],
{
    reveal_strlit("Return");
    reveal_strlit("Escape");
    reveal_strlit("Delete");
    reveal_strlit("Insert");
    reveal_strlit("Page_Up");
    reveal_strlit("Page_Down");
    reveal_strlit("BackSpace");
    reveal_strlit("Home");
    reveal_strlit("End");
    reveal_strlit("Up");
    reveal_strlit("Down");
    reveal_strlit("Left");
    reveal_strlit("Right");
    reveal_strlit("Tab");
    reveal_strlit("AudioMute");
    reveal_strlit("AudioRaiseVolume");
    reveal_strlit("AudioLowerVolume");
    reveal_strlit("AudioPlay");
}

/// Modifier tokens and names, spelled out.
proof fn lemma_modifier_names()
    ensures
        "<Control>"@ == seq!['<', 'C', 'o', 'n', 't', 'r', 'o', 'l', '>'],
        "<Alt>"@ == seq!['<', 'A', 'l', 't', '>'],
        "<Shift>"@ == seq!['<', 'S', 'h', 'i', 'f', 't', '>'],
        "<Super>"@ == seq!['<', 'S', 'u', 'p', 'e', 'r', '>'],
        "control"@ == seq!['c', 'o', 'n', 't', 'r', 'o', 'l'],
        "alt"@ == seq!['a', 'l', 't'],
        "shift"@ == seq!['s', 'h', 'i', 'f', 't'],
        "super"@ == seq!['s', 'u', 'p', 'e', 'r'],
        "shft"@ == seq!['s', 'h', 'f', 't'],
        "ctrl"@ == seq!['c', 't', 'r', 'l'],
        "ctl"@ == seq!['c', 't', 'l'],
        "primary"@ == seq!['p', 'r', 'i', 'm', 'a', 'r', 'y'],
        "mod1"@ == seq!['m', 'o', 'd', '1'],
        "meta"@ == seq!['m', 'e', 't', 'a'],
        "mod4"@ == seq!['m', 'o', 'd', '4'],
        "hyper"@ == seq!['h', 'y', 'p', 'e', 'r'],
        "logo"@ == seq!['l', 'o', 'g', 'o'],
        "win"@ == seq!['w', 'i', 'n'],
        "release"@ == seq!['r', 'e', 'l', 'e', 'a', 's', 'e'],
        "C-"@ == seq!['C', '-'],
        "A-"@ == seq!['A', '-'],
        "S-"@ == seq!['S', '-'],
        "M-"@ == seq!['M', '-'],
{
    reveal_strlit("<Control>");
    reveal_strlit("<Alt>");
    reveal_strlit("<Shift>");
    reveal_strlit("<Super>");
    reveal_strlit("control");
    reveal_strlit("alt");
    reveal_strlit("shift");
    reveal_strlit("super");
    reveal_strlit("shft");
    reveal_strlit("ctrl");
    reveal_strlit("ctl");
    reveal_strlit("primary");
    reveal_strlit("mod1");
    reveal_strlit("meta");
    reveal_strlit("mod4");
    reveal_strlit("hyper");
    reveal_strlit("logo");
    reveal_strlit("win");
    reveal_strlit("release");
    reveal_strlit("C-");
    reveal_strlit("A-");
    reveal_strlit("S-");
    reveal_strlit("M-");
}


/// A character that never needs trimming and is never taken for syntax.
pub open spec fn plain_char(c: char) -> bool {
    !is_ws(c) && c != '<' && c != '>' && c != '-'
}

/// Non-empty text made only of plain characters.
pub open spec fn plain(s: Seq<char>) -> bool {
    s.len() > 0 && forall|i: int| 0 <= i < s.len() ==> #[trigger] plain_char(s[i])
}

proof fn lemma_plain_trim(s: Seq<char>)
    requires
        plain(s),
    ensures
        trim(s) == s,
{
    assert(plain_char(s[0]));
    assert(trim_start(s) == s);
    assert(plain_char(s[s.len() - 1]));
    assert(trim_end(s) == s);
}

proof fn lemma_plain_no(s: Seq<char>, c: char)
    requires
        plain(s),
        !plain_char(c),
    ensures
        !has_char(s, c),
{
    if has_char(s, c) {
        let i = choose|i: int| 0 <= i < s.len() && s[i] == c;
        assert(plain_char(s[i]));
    }
}

proof fn lemma_key_plain(k: Seq<char>)
    requires
        key_ok(k),
    ensures
        plain(k),
{
    lemma_key_names();
    lemma_media_names();
    if k.len() == 1 && is_alnum(k[0]) {
        assert forall|i: int| 0 <= i < k.len() implies #[trigger] plain_char(k[i]) by {}
    } else if is_fkey(k) {
        assert forall|i: int| 0 <= i < k.len() implies #[trigger] plain_char(k[i]) by {
            if i > 0 {
                assert(k.drop_first()[i - 1] == k[i]);
                assert(is_digit(k.drop_first()[i - 1]));
            }
        }
    } else {
        assert forall|i: int| 0 <= i < k.len() implies #[trigger] plain_char(k[i]) by {}
    }
}

/// Every canonical key name is made of letters and digits only.
pub(crate) proof fn lemma_key_alnum(k: Seq<char>)
    requires
        key_ok(k),
    ensures
        k.len() > 0,
        forall|i: int| 0 <= i < k.len() ==> #[trigger] is_alnum(k[i]),
{
    lemma_key_names();
    lemma_media_names();
    if k.len() == 1 && is_alnum(k[0]) {
        assert forall|i: int| 0 <= i < k.len() implies #[trigger] is_alnum(k[i]) by {}
    } else if is_fkey(k) {
        assert forall|i: int| 0 <= i < k.len() implies #[trigger] is_alnum(k[i]) by {
            if i > 0 {
                assert(k.drop_first()[i - 1] == k[i]);
                assert(is_digit(k.drop_first()[i - 1]));
            }
        }
    } else {
        assert forall|i: int| 0 <= i < k.len() implies #[trigger] is_alnum(k[i]) by {}
    }
}

/// A canonical key written alone parses as itself, with no modifiers.
pub(crate) proof fn lemma_key_alone(k: Seq<char>)
    requires
        canonical_key_spec(k) == Some(k),
    ensures
        key_ok(k),
        parse_spec(k) == ok_parts(0, k),
{
    assert(key_ok(k));
    lemma_key_plain(k);
    lemma_plain_trim(k);
    lemma_plain_no(k, '<');
    lemma_plain_no(k, '-');
}

/// A key that the GTK spelling maps back onto itself.
proof fn lemma_canon_fkey(k: Seq<char>)
    requires
        is_fkey(k),
    ensures
        key_alias(k) == k,
        key_ok(k),
        lower(k) == k,
{
    lemma_alias_names();
    assert(k[0] == 'f');
    assert forall|i: int| 0 <= i < k.len() implies #[trigger] lower(k)[i] == k[i] by {
        if i > 0 {
            assert(k.drop_first()[i - 1] == k[i]);
            assert(is_digit(k.drop_first()[i - 1]));
        }
    }
    assert(lower(k) == k);
}

proof fn lemma_gtk_name_canonical(k: Seq<char>)
    requires
        canonical_key_spec(k) == Some(k),
    ensures
        canonical_key_spec(gtk_key_name_spec(k)) == Some(k),
        plain(gtk_key_name_spec(k)),
{
    lemma_key_names();
    lemma_media_names();
    lemma_gtk_names();
    lemma_alias_names();
    let g = gtk_key_name_spec(k);
    assert(key_ok(k));
    lemma_key_plain(k);
    if g == k {
    } else if is_fkey(k) {
        assert(g == seq!['F'] + k.drop_first());
        let f = g;
        assert forall|i: int| 0 <= i < f.len() implies #[trigger] plain_char(f[i]) by {
            if i > 0 {
                assert(k.drop_first()[i - 1] == k[i]);
                assert(is_digit(k.drop_first()[i - 1]));
            }
        }
        lemma_plain_trim(f);
        assert forall|i: int| 0 <= i < f.len() implies #[trigger] lower(f)[i] == k[i] by {
            if i > 0 {
                assert(k.drop_first()[i - 1] == k[i]);
                assert(is_digit(k.drop_first()[i - 1]));
            }
        }
        assert(lower(f) == k);
        lemma_canon_fkey(k);
    } else {
        assert forall|i: int| 0 <= i < g.len() implies #[trigger] plain_char(g[i]) by {}
        lemma_plain_trim(g);
        if k == "enter"@ {
            assert(lower(g) == "return"@);
        }
        if k == "esc"@ {
            assert(lower(g) == "escape"@);
        }
        if k == "delete"@ {
            assert(lower(g) == "delete"@);
        }
        if k == "insert"@ {
            assert(lower(g) == "insert"@);
        }
        if k == "pageup"@ {
            assert(lower(g) == "page_up"@);
        }
        if k == "pagedown"@ {
            assert(lower(g) == "page_down"@);
        }
        if k == "backspace"@ {
            assert(lower(g) == "backspace"@);
        }
        if k == "home"@ {
            assert(lower(g) == "home"@);
        }
        if k == "end"@ {
            assert(lower(g) == "end"@);
        }
        if k == "up"@ {
            assert(lower(g) == "up"@);
        }
        if k == "down"@ {
            assert(lower(g) == "down"@);
        }
        if k == "left"@ {
            assert(lower(g) == "left"@);
        }
        if k == "right"@ {
            assert(lower(g) == "right"@);
        }
        if k == "tab"@ {
            assert(lower(g) == "tab"@);
        }
        if k == "dot"@ {
            assert(lower(g) == "period"@);
        }
        if k == "leftbrace"@ {
            assert(lower(g) == "bracketleft"@);
        }
        if k == "rightbrace"@ {
            assert(lower(g) == "bracketright"@);
        }
        if k == "mute"@ {
            assert(lower(g) == "audiomute"@);
        }
        if k == "volumeup"@ {
            assert(lower(g) == "audioraisevolume"@);
        }
        if k == "volumedown"@ {
            assert(lower(g) == "audiolowervolume"@);
        }
        if k == "playpause"@ {
            assert(lower(g) == "audioplay"@);
        }
        assert(key_alias(lower(g)) == k);
    }
}

/// Consuming one `<name>` token: the parse continues on what follows with the
/// token's modifiers added.
pub proof fn lemma_gtk_token(name: Seq<char>, b: u8, rest: Seq<char>, m: u8, input: Seq<char>)
    requires
        gtk_modifier_spec(name) == Some(b),
        forall|i: int| 0 <= i < name.len() ==> name[i] != '>',
    ensures
        gtk_spec(seq!['<'] + name + seq!['>'] + rest, m, input) == gtk_spec(rest, m | b, input),
{
    let s = seq!['<'] + name + seq!['>'] + rest;
    let close: int = name.len() as int + 1;
    assert(s[close] == '>');
    assert forall|j: int| 0 <= j < close implies s[j] != '>' by {
        if j > 0 {
            assert(s[j] == name[j - 1]);
        }
    }
    lemma_first_index(s, '>', close);
    assert(s.subrange(1, close) == name);
    assert(s.subrange(close + 1, s.len() as int) == rest);
}

/// Consuming one keyd prefix such as `C-`.
pub proof fn lemma_keyd_token(c: char, b: u8, rest: Seq<char>, m: u8, input: Seq<char>)
    requires
        keyd_prefix_spec(c) == Some(b),
        rest.len() > 0,
    ensures
        keyd_spec(seq![c, '-'] + rest, m, input) == keyd_spec(rest, m | b, input),
{
    let s = seq![c, '-'] + rest;
    assert(s.subrange(2, s.len() as int) == rest);
}

/// A token that is either absent (adding nothing) or a `<name>` for `b`.
proof fn lemma_gtk_step(tok: Seq<char>, name: Seq<char>, b: u8, rest: Seq<char>, m: u8, input: Seq<char>)
    requires
        (tok.len() == 0 && b == 0) || (tok == seq!['<'] + name + seq!['>'] && gtk_modifier_spec(name)
            == Some(b) && forall|i: int| 0 <= i < name.len() ==> name[i] != '>'),
    ensures
        gtk_spec(tok + rest, m, input) == gtk_spec(rest, m | b, input),
{
    if tok.len() == 0 {
        assert(tok + rest == rest);
        assert(m | 0 == m) by (bit_vector);
    } else {
        lemma_gtk_token(name, b, rest, m, input);
    }
}

proof fn lemma_keyd_step(tok: Seq<char>, c: char, b: u8, rest: Seq<char>, m: u8, input: Seq<char>)
    requires
        rest.len() > 0,
        (tok.len() == 0 && b == 0) || (tok == seq![c, '-'] && keyd_prefix_spec(c) == Some(b)),
    ensures
        keyd_spec(tok + rest, m, input) == keyd_spec(rest, m | b, input),
{
    if tok.len() == 0 {
        assert(tok + rest == rest);
        assert(m | 0 == m) by (bit_vector);
    } else {
        lemma_keyd_token(c, b, rest, m, input);
    }
}

pub(crate) proof fn lemma_bits_rebuild(m: u8, bc: u8, ba: u8, bs: u8, bu: u8)
    requires
        m < 16,
        bc == (if m & CONTROL_BIT == CONTROL_BIT { CONTROL_BIT } else { 0u8 }),
        ba == (if m & ALT_BIT == ALT_BIT { ALT_BIT } else { 0u8 }),
        bs == (if m & SHIFT_BIT == SHIFT_BIT { SHIFT_BIT } else { 0u8 }),
        bu == (if m & SUPER_BIT == SUPER_BIT { SUPER_BIT } else { 0u8 }),
    ensures
        ((((0u8 | bc) | ba) | bs) | bu) == m,
        m == 0 <==> (m & CONTROL_BIT != CONTROL_BIT && m & ALT_BIT != ALT_BIT && m & SHIFT_BIT
            != SHIFT_BIT && m & SUPER_BIT != SUPER_BIT),
{
    assert(((((0u8 | bc) | ba) | bs) | bu) == m) by (bit_vector)
        requires
            m < 16,
            bc == (if m & 2 == 2 { 2u8 } else { 0u8 }),
            ba == (if m & 4 == 4 { 4u8 } else { 0u8 }),
            bs == (if m & 1 == 1 { 1u8 } else { 0u8 }),
            bu == (if m & 8 == 8 { 8u8 } else { 0u8 }),
    ;
    assert(m < 16 ==> (m == 0 <==> (m & 2 != 2 && m & 4 != 4 && m & 1 != 1 && m & 8 != 8))) by (bit_vector);
}

/// Parsing the GTK rendering of a well-formed accelerator gives it back.
#[verifier::rlimit(50)]
pub proof fn law_gtk_roundtrip(a: Accel)
    requires
        accel_wf(a),
    ensures
        parse_spec(to_gtk_spec(a.mods.bits(), a.key@)) == ok_parts(a.mods.bits(), a.key@),
{
    let m = a.mods.bits();
    let k = a.key@;
    let g = gtk_key_name_spec(k);
    lemma_gtk_name_canonical(k);
    lemma_modifier_names();
    let tc: Seq<char> = if m & CONTROL_BIT == CONTROL_BIT { "<Control>"@ } else { Seq::empty() };
    let ta: Seq<char> = if m & ALT_BIT == ALT_BIT { "<Alt>"@ } else { Seq::empty() };
    let ts: Seq<char> = if m & SHIFT_BIT == SHIFT_BIT { "<Shift>"@ } else { Seq::empty() };
    let tu: Seq<char> = if m & SUPER_BIT == SUPER_BIT { "<Super>"@ } else { Seq::empty() };
    let t = to_gtk_spec(m, k);
    let r3 = tu + g;
    let r2 = ts + r3;
    let r1 = ta + r2;
    assert(t == tc + r1);
    let bc: u8 = if m & CONTROL_BIT == CONTROL_BIT { CONTROL_BIT } else { 0 };
    let ba: u8 = if m & ALT_BIT == ALT_BIT { ALT_BIT } else { 0 };
    let bs: u8 = if m & SHIFT_BIT == SHIFT_BIT { SHIFT_BIT } else { 0 };
    let bu: u8 = if m & SUPER_BIT == SUPER_BIT { SUPER_BIT } else { 0 };
    lemma_bits_rebuild(m, bc, ba, bs, bu);
    lemma_plain_trim(g);
    lemma_plain_no(g, '<');
    lemma_plain_no(g, '-');
    assert(plain_char(g[0]));
    let name_c = seq!['C', 'o', 'n', 't', 'r', 'o', 'l'];
    let name_a = seq!['A', 'l', 't'];
    let name_s = seq!['S', 'h', 'i', 'f', 't'];
    let name_u = seq!['S', 'u', 'p', 'e', 'r'];
    assert(lower(name_c) == "control"@);
    assert(lower(name_a) == "alt"@);
    assert(lower(name_s) == "shift"@);
    assert(lower(name_u) == "super"@);
    if m == 0 {
        assert(tc.len() == 0 && ta.len() == 0 && ts.len() == 0 && tu.len() == 0);
        assert(t == g);
        assert(parse_spec(t) == finish_spec(0, g));
    } else {
        assert(tc.len() > 0 || ta.len() > 0 || ts.len() > 0 || tu.len() > 0);
        assert(t[0] == '<');
        assert(t[t.len() - 1] == g[g.len() - 1]);
        assert(plain_char(g[g.len() - 1]));
        assert(trim_start(t) == t);
        assert(trim_end(t) == t);
        assert(has_char(t, '<'));
        assert(gtk_modifier_spec(name_c) == Some(CONTROL_BIT));
        assert(gtk_modifier_spec(name_a) == Some(ALT_BIT));
        assert(gtk_modifier_spec(name_s) == Some(SHIFT_BIT));
        assert(gtk_modifier_spec(name_u) == Some(SUPER_BIT));
        if tc.len() > 0 {
            assert(tc == seq!['<'] + name_c + seq!['>']);
        }
        if ta.len() > 0 {
            assert(ta == seq!['<'] + name_a + seq!['>']);
        }
        if ts.len() > 0 {
            assert(ts == seq!['<'] + name_s + seq!['>']);
        }
        if tu.len() > 0 {
            assert(tu == seq!['<'] + name_u + seq!['>']);
        }
        lemma_gtk_step(tc, name_c, bc, r1, 0, t);
        lemma_gtk_step(ta, name_a, ba, r2, 0u8 | bc, t);
        lemma_gtk_step(ts, name_s, bs, r3, (0u8 | bc) | ba, t);
        lemma_gtk_step(tu, name_u, bu, g, ((0u8 | bc) | ba) | bs, t);
        assert(gtk_spec(t, 0, t) == gtk_spec(g, m, t));
    }
}

/// Parsing the keyd rendering of a well-formed accelerator gives it back.
#[verifier::rlimit(50)]
pub proof fn law_keyd_roundtrip(a: Accel)
    requires
        accel_wf(a),
    ensures
        parse_spec(to_keyd_spec(a.mods.bits(), a.key@)) == ok_parts(a.mods.bits(), a.key@),
{
    let m = a.mods.bits();
    let k = a.key@;
    lemma_key_plain(k);
    lemma_modifier_names();
    let tc: Seq<char> = if m & CONTROL_BIT == CONTROL_BIT { "C-"@ } else { Seq::empty() };
    let ta: Seq<char> = if m & ALT_BIT == ALT_BIT { "A-"@ } else { Seq::empty() };
    let ts: Seq<char> = if m & SHIFT_BIT == SHIFT_BIT { "S-"@ } else { Seq::empty() };
    let tu: Seq<char> = if m & SUPER_BIT == SUPER_BIT { "M-"@ } else { Seq::empty() };
    let t = to_keyd_spec(m, k);
    let r3 = tu + k;
    let r2 = ts + r3;
    let r1 = ta + r2;
    assert(t == tc + r1);
    let bc: u8 = if m & CONTROL_BIT == CONTROL_BIT { CONTROL_BIT } else { 0 };
    let ba: u8 = if m & ALT_BIT == ALT_BIT { ALT_BIT } else { 0 };
    let bs: u8 = if m & SHIFT_BIT == SHIFT_BIT { SHIFT_BIT } else { 0 };
    let bu: u8 = if m & SUPER_BIT == SUPER_BIT { SUPER_BIT } else { 0 };
    lemma_bits_rebuild(m, bc, ba, bs, bu);
    lemma_plain_trim(k);
    lemma_plain_no(k, '<');
    lemma_plain_no(k, '-');
    assert(!(k.len() > 2 && k[1] == '-')) by {
        if k.len() > 2 {
            assert(plain_char(k[1]));
        }
    }
    if m == 0 {
        assert(tc.len() == 0 && ta.len() == 0 && ts.len() == 0 && tu.len() == 0);
        assert(t == k);
    } else {
        assert(tc.len() > 0 || ta.len() > 0 || ts.len() > 0 || tu.len() > 0);
        assert(t[t.len() - 1] == k[k.len() - 1]);
        assert(plain_char(k[k.len() - 1]));
        assert(!is_ws(t[0]));
        assert(trim_start(t) == t);
        assert(trim_end(t) == t);
        assert(!has_char(t, '<')) by {
            if has_char(t, '<') {
                let i = choose|i: int| 0 <= i < t.len() && t[i] == '<';
                if i >= t.len() - k.len() {
                    assert(t[i] == k[i - (t.len() - k.len())]);
                    assert(plain_char(k[i - (t.len() - k.len())]));
                }
            }
        }
        assert(t[1] == '-');
        assert(has_char(t, '-'));
        lemma_keyd_step(tc, 'C', bc, r1, 0, t);
        lemma_keyd_step(ta, 'A', ba, r2, 0u8 | bc, t);
        lemma_keyd_step(ts, 'S', bs, r3, (0u8 | bc) | ba, t);
        lemma_keyd_step(tu, 'M', bu, k, ((0u8 | bc) | ba) | bs, t);
        assert(keyd_spec(t, 0, t) == keyd_spec(k, m, t));
    }
}


proof fn lemma_lower_fixed(s: Seq<char>)
    requires
        forall|i: int| 0 <= i < s.len() ==> !('A' <= #[trigger] s[i] && s[i] <= 'Z'),
    ensures
        lower(s) == s,
{
    assert(lower(s) =~= s);
}

proof fn lemma_lower_idem(s: Seq<char>)
    ensures
        lower(lower(s)) == lower(s),
{
    let l = lower(s);
    assert forall|i: int| 0 <= i < l.len() implies !('A' <= #[trigger] l[i] && l[i] <= 'Z') by {
        assert(l[i] == lower_char(s[i]));
    }
    lemma_lower_fixed(l);
}

/// Canonical key names are fixed points of canonicalisation, and lower case.
pub proof fn lemma_canonical_idempotent(raw: Seq<char>)
    ensures
        canonical_key_spec(raw) matches Some(k) ==> canonical_key_spec(k) == Some(k) && lower(k)
            == k,
{
    if canonical_key_spec(raw) is Some {
        let l = lower(trim(raw));
        let k = key_alias(l);
        assert(key_ok(k));
        lemma_key_plain(k);
        lemma_plain_trim(k);
        lemma_key_names();
        lemma_media_names();
        lemma_alias_names();
        if k == l {
            lemma_lower_idem(trim(raw));
        } else {
            assert(is_named_key(k) || is_media_key(k));
            assert forall|i: int| 0 <= i < k.len() implies !('A' <= #[trigger] k[i] && k[i] <= 'Z') by {}
            lemma_lower_fixed(k);
        }
        assert(lower(k) == k);
        if is_fkey(k) {
            lemma_canon_fkey(k);
        } else if k.len() == 1 && is_alnum(k[0]) {
            assert(key_alias(k) == k);
        } else {
            assert(key_alias(k) == k);
        }
    }
}

proof fn lemma_lower_upper(k: Seq<char>)
    requires
        lower(k) == k,
    ensures
        lower(upper(k)) == k,
{
    assert forall|i: int| 0 <= i < k.len() implies #[trigger] lower(upper(k))[i] == k[i] by {
        let c = k[i];
        assert(lower(k)[i] == lower_char(c));
        if 'a' <= c && c <= 'z' {
            assert((upper_char(c) as u32) == (c as u32) - 32);
            assert((lower_char(upper_char(c)) as u32) == (c as u32));
        }
    }
    assert(lower(upper(k)) =~= k);
}

/// What canonicalisation gives is a non-empty lower-case name that maps to
/// itself, and to which its upper-case spelling maps too.
pub proof fn law_canonical_key_form(raw: Seq<char>)
    ensures
        canonical_key_spec(raw) matches Some(k) ==> {
            &&& k.len() > 0
            &&& lower(k) == k
            &&& canonical_key_spec(k) == Some(k)
            &&& canonical_key_spec(upper(k)) == Some(k)
        },
{
    if canonical_key_spec(raw) is Some {
        let k = canonical_key_spec(raw)->0;
        lemma_canonical_idempotent(raw);
        assert(key_ok(k));
        lemma_key_plain(k);
        lemma_plain_trim(k);
        assert(lower(k) == k);
        lemma_lower_upper(k);
        let u = upper(k);
        assert forall|i: int| 0 <= i < u.len() implies #[trigger] plain_char(u[i]) by {
            assert(plain_char(k[i]));
            assert(u[i] == upper_char(k[i]));
        }
        assert(plain(u));
        lemma_plain_trim(u);
        assert(lower(trim(u)) == k);
        assert(lower(trim(k)) == k);
    }
}

proof fn lemma_gtk_mods_small(rest: Seq<char>, m: u8, input: Seq<char>)
    requires
        m < 16,
    ensures
        gtk_spec(rest, m, input) matches Ok((b, k)) ==> b < 16 && canonical_key_spec(k) == Some(k),
    decreases rest.len(),
{
    if rest.len() > 0 && rest[0] == '<' {
        match first_index(rest, '>') {
            None => {},
            Some(close) => {
                let name = rest.subrange(1, close);
                match gtk_modifier_spec(name) {
                    None => {},
                    Some(b) => {
                        if 0 < close < rest.len() {
                            assert(b == 0 || b == 1 || b == 2 || b == 4 || b == 8);
                            assert(m < 16 && (b == 0 || b == 1 || b == 2 || b == 4 || b == 8)
                                ==> m | b < 16) by (bit_vector);
                            lemma_gtk_mods_small(
                                rest.subrange(close + 1, rest.len() as int),
                                m | b,
                                input,
                            );
                        }
                    },
                }
            },
        }
    } else if rest.len() > 0 {
        lemma_canonical_idempotent(rest);
    }
}

proof fn lemma_keyd_mods_small(rest: Seq<char>, m: u8, input: Seq<char>)
    requires
        m < 16,
    ensures
        keyd_spec(rest, m, input) matches Ok((b, k)) ==> b < 16 && canonical_key_spec(k) == Some(k),
    decreases rest.len(),
{
    if rest.len() > 2 && rest[1] == '-' && keyd_prefix_spec(rest[0]) is Some {
        let b = keyd_prefix_spec(rest[0])->0;
        assert(m < 16 && (b == 1 || b == 2 || b == 4 || b == 8) ==> m | b < 16) by (bit_vector);
        lemma_keyd_mods_small(rest.subrange(2, rest.len() as int), m | b, input);
    } else if rest.len() > 0 {
        lemma_canonical_idempotent(rest);
    }
}

/// Whatever the parser accepts is well formed: only known modifier bits and a
/// canonical key, which is a non-empty lower-case name. Together with the
/// roundtrip laws, rendering a parsed accelerator in either dialect and
/// parsing it again gives the same result.
pub proof fn law_parse_wf(input: Seq<char>)
    ensures
        parse_spec(input) matches Ok((m, k)) ==> m < 16 && canonical_key_spec(k) == Some(k)
            && k.len() > 0 && lower(k) == k,
{
    let t = trim(input);
    if t.len() > 0 {
        if has_char(t, '<') {
            lemma_gtk_mods_small(t, 0, t);
        } else if has_char(t, '-') && t.len() > 1 {
            lemma_keyd_mods_small(t, 0, t);
        } else {
            lemma_canonical_idempotent(t);
        }
    }
    if let Ok((_, k)) = parse_spec(input) {
        law_canonical_key_form(k);
    }
}

/// The order of `<modifier>` tokens never matters: swapping two adjacent
/// tokens leaves the parse unchanged.
pub proof fn law_modifier_order(
    n1: Seq<char>,
    n2: Seq<char>,
    rest: Seq<char>,
    m: u8,
    input: Seq<char>,
)
    requires
        gtk_modifier_spec(n1) is Some,
        gtk_modifier_spec(n2) is Some,
        forall|i: int| 0 <= i < n1.len() ==> n1[i] != '>',
        forall|i: int| 0 <= i < n2.len() ==> n2[i] != '>',
    ensures
        gtk_spec(seq!['<'] + n1 + seq!['>'] + (seq!['<'] + n2 + seq!['>'] + rest), m, input)
            == gtk_spec(seq!['<'] + n2 + seq!['>'] + (seq!['<'] + n1 + seq!['>'] + rest), m, input),
{
    let b1 = gtk_modifier_spec(n1)->0;
    let b2 = gtk_modifier_spec(n2)->0;
    lemma_gtk_token(n1, b1, seq!['<'] + n2 + seq!['>'] + rest, m, input);
    lemma_gtk_token(n2, b2, rest, m | b1, input);
    lemma_gtk_token(n2, b2, seq!['<'] + n1 + seq!['>'] + rest, m, input);
    lemma_gtk_token(n1, b1, rest, m | b2, input);
    assert((m | b1) | b2 == (m | b2) | b1) by (bit_vector);
}


// ---------------------------------------------------------------------------
// Modifier spellings and bare keys
// ---------------------------------------------------------------------------

/// `<name>` in front of `key`, as GTK writes a modifier.
pub open spec fn gtk_with(name: Seq<char>, key: Seq<char>) -> Seq<char> {
    seq!['<'] + name + seq!['>'] + key
}

/// A key that can follow the modifiers as it stands: it is there, does not
/// open another `<...>`, and has no whitespace at its end.
pub open spec fn plain_key(key: Seq<char>) -> bool {
    key.len() > 0 && key[0] != '<' && !is_ws(key.last())
}

proof fn lemma_lower_keeps_gt(name: Seq<char>, w: Seq<char>)
    requires
        lower(name) == w,
        forall|j: int| 0 <= j < w.len() ==> w[j] != '>',
    ensures
        forall|j: int| 0 <= j < name.len() ==> name[j] != '>',
{
    assert forall|j: int| 0 <= j < name.len() implies name[j] != '>' by {
        assert(lower(name)[j] == lower_char(name[j]));
    }
}

/// What a GTK accelerator with one modifier token parses to, once that token
/// is known to stand for `b`.
proof fn lemma_one_token(name: Seq<char>, b: u8, key: Seq<char>)
    requires
        gtk_modifier_spec(name) == Some(b),
        forall|j: int| 0 <= j < name.len() ==> name[j] != '>',
        plain_key(key),
    ensures
        parse_spec(gtk_with(name, key)) == finish_spec(b, key),
{
    let s = gtk_with(name, key);
    assert(s[0] == '<');
    assert(trim_start(s) == s);
    assert(s.last() == key.last());
    assert(trim_end(s) == s);
    assert(has_char(s, '<'));
    lemma_gtk_token(name, b, key, 0, s);
    assert(0u8 | b == b) by (bit_vector);
}

/// The spellings of each modifier, lower-cased.
proof fn lemma_spellings()
    ensures
        "control"@ == seq!['c', 'o', 'n', 't', 'r', 'o', 'l'],
        "ctrl"@ == seq!['c', 't', 'r', 'l'],
        "ctl"@ == seq!['c', 't', 'l'],
        "primary"@ == seq!['p', 'r', 'i', 'm', 'a', 'r', 'y'],
        "shift"@ == seq!['s', 'h', 'i', 'f', 't'],
        "shft"@ == seq!['s', 'h', 'f', 't'],
        "alt"@ == seq!['a', 'l', 't'],
        "mod1"@ == seq!['m', 'o', 'd', '1'],
        "meta"@ == seq!['m', 'e', 't', 'a'],
        "super"@ == seq!['s', 'u', 'p', 'e', 'r'],
        "mod4"@ == seq!['m', 'o', 'd', '4'],
        "hyper"@ == seq!['h', 'y', 'p', 'e', 'r'],
        "logo"@ == seq!['l', 'o', 'g', 'o'],
        "win"@ == seq!['w', 'i', 'n'],
        "release"@ == seq!['r', 'e', 'l', 'e', 'a', 's', 'e'],
{
    reveal_strlit("control");
    reveal_strlit("ctrl");
    reveal_strlit("ctl");
    reveal_strlit("primary");
    reveal_strlit("shift");
    reveal_strlit("shft");
    reveal_strlit("alt");
    reveal_strlit("mod1");
    reveal_strlit("meta");
    reveal_strlit("super");
    reveal_strlit("mod4");
    reveal_strlit("hyper");
    reveal_strlit("logo");
    reveal_strlit("win");
    reveal_strlit("release");
}

proof fn lemma_spelling(name: Seq<char>, key: Seq<char>, w: Seq<char>, b: u8)
    requires
        plain_key(key),
        lower(name) == w,
        gtk_modifier_spec(name) == Some(b),
        forall|j: int| 0 <= j < w.len() ==> is_alnum(#[trigger] w[j]),
    ensures
        parse_spec(gtk_with(name, key)) == finish_spec(b, key),
{
    assert forall|j: int| 0 <= j < w.len() implies w[j] != '>' by {
        assert(is_alnum(w[j]));
    }
    lemma_lower_keeps_gt(name, w);
    lemma_one_token(name, b, key);
}

/// Every spelling of a modifier that GTK accepts stands for that modifier,
/// whatever its case: `control`, `ctrl`, `ctl` and `primary` for Control;
/// `shift` and `shft` for Shift; `alt`, `mod1` and `meta` for Alt; `super`,
/// `mod4`, `hyper`, `logo` and `win` for Super. So `<Ctrl>c` parses as
/// `<Control>c` does, and `<Win>c` as `<Super>c`.
pub proof fn law_gtk_modifier_spellings(name: Seq<char>, key: Seq<char>)
    requires
        plain_key(key),
    ensures
        ({
            let l = lower(name);
            l == "control"@ || l == "ctrl"@ || l == "ctl"@ || l == "primary"@
        }) ==> parse_spec(gtk_with(name, key)) == finish_spec(CONTROL_BIT, key),
        ({
            let l = lower(name);
            l == "shift"@ || l == "shft"@
        }) ==> parse_spec(gtk_with(name, key)) == finish_spec(SHIFT_BIT, key),
        ({
            let l = lower(name);
            l == "alt"@ || l == "mod1"@ || l == "meta"@
        }) ==> parse_spec(gtk_with(name, key)) == finish_spec(ALT_BIT, key),
        ({
            let l = lower(name);
            l == "super"@ || l == "mod4"@ || l == "hyper"@ || l == "logo"@ || l == "win"@
        }) ==> parse_spec(gtk_with(name, key)) == finish_spec(SUPER_BIT, key),
        lower(name) == "release"@ ==> parse_spec(gtk_with(name, key)) == finish_spec(0, key),
        ({
            let l = lower(name);
            &&& l != "control"@ && l != "ctrl"@ && l != "ctl"@ && l != "primary"@
            &&& l != "shift"@ && l != "shft"@
            &&& l != "alt"@ && l != "mod1"@ && l != "meta"@
            &&& l != "super"@ && l != "mod4"@ && l != "hyper"@ && l != "logo"@ && l != "win"@
            &&& l != "release"@
            &&& forall|j: int| 0 <= j < name.len() ==> name[j] != '>'
        }) ==> parse_spec(gtk_with(name, key)) == Err::<(u8, Seq<char>), AccelErr>(
            AccelErr::UnknownModifier(name),
        ),
{
    let l = lower(name);
    lemma_spellings();
    if l == "release"@ {
        lemma_spelling(name, key, l, 0);
    }
    if gtk_modifier_spec(name) is None && forall|j: int| 0 <= j < name.len() ==> name[j] != '>' {
        let s = gtk_with(name, key);
        assert(s[0] == '<');
        assert(trim_start(s) == s);
        assert(s.last() == key.last());
        assert(trim_end(s) == s);
        assert(has_char(s, '<'));
        let close: int = name.len() as int + 1;
        assert(s[close] == '>');
        assert forall|j: int| 0 <= j < close implies s[j] != '>' by {
            if j > 0 {
                assert(s[j] == name[j - 1]);
            }
        }
        lemma_first_index(s, '>', close);
        assert(s.subrange(1, close) == name);
    }
    if l == "control"@ {
        lemma_spelling(name, key, l, CONTROL_BIT);
    } else if l == "ctrl"@ {
        lemma_spelling(name, key, l, CONTROL_BIT);
    } else if l == "ctl"@ {
        lemma_spelling(name, key, l, CONTROL_BIT);
    } else if l == "primary"@ {
        lemma_spelling(name, key, l, CONTROL_BIT);
    } else if l == "shift"@ {
        lemma_spelling(name, key, l, SHIFT_BIT);
    } else if l == "shft"@ {
        lemma_spelling(name, key, l, SHIFT_BIT);
    } else if l == "alt"@ {
        lemma_spelling(name, key, l, ALT_BIT);
    } else if l == "mod1"@ {
        lemma_spelling(name, key, l, ALT_BIT);
    } else if l == "meta"@ {
        lemma_spelling(name, key, l, ALT_BIT);
    } else if l == "super"@ {
        lemma_spelling(name, key, l, SUPER_BIT);
    } else if l == "mod4"@ {
        lemma_spelling(name, key, l, SUPER_BIT);
    } else if l == "hyper"@ {
        lemma_spelling(name, key, l, SUPER_BIT);
    } else if l == "logo"@ {
        lemma_spelling(name, key, l, SUPER_BIT);
    } else if l == "win"@ {
        lemma_spelling(name, key, l, SUPER_BIT);
    }
}

/// A shortcut with no modifier may be bound exactly when its key is a
/// function key (`f` and digits) or one of the dedicated media keys; any
/// other bare key would swallow ordinary typing and is refused. With a
/// modifier every key may be bound.
pub proof fn law_bare_keys(m: u8, k: Seq<char>)
    ensures
        validate_ok(m, k) <==> (m != 0 || (k.len() > 1 && k[0] == 'f' && forall|i: int|
            1 <= i < k.len() ==> '0' <= #[trigger] k[i] <= '9') || k == "playpause"@ || k
            == "stopcd"@ || k == "nextsong"@ || k == "previoussong"@ || k == "mute"@ || k
            == "volumeup"@ || k == "volumedown"@ || k == "brightnessup"@ || k == "brightnessdown"@
            || k == "prog1"@ || k == "prog2"@ || k == "micmute"@ || k == "calc"@ || k == "search"@),
{
    if k.len() > 1 && k[0] == 'f' {
        assert((forall|i: int| 1 <= i < k.len() ==> '0' <= #[trigger] k[i] <= '9') <==> all_digits(
            k.drop_first(),
        )) by {
            if all_digits(k.drop_first()) {
                assert forall|i: int| 1 <= i < k.len() implies '0' <= #[trigger] k[i] <= '9' by {
                    assert(k[i] == k.drop_first()[i - 1]);
                    assert(is_digit(k.drop_first()[i - 1]));
                }
            }
            if forall|i: int| 1 <= i < k.len() ==> '0' <= #[trigger] k[i] <= '9' {
                assert forall|i: int| 0 <= i < k.drop_first().len() implies #[trigger] is_digit(
                    k.drop_first()[i],
                ) by {
                    assert(k.drop_first()[i] == k[i + 1]);
                }
            }
        }
    }
}

} // verus!
