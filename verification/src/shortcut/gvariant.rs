//! Just enough GVariant text-format parsing to read what `gsettings` prints.
//!
//! Values come back from `gsettings` as GVariant *text*: `['<Alt>F7', '<Super>x']`,
//! `@as []`, `'a string'`, `@ms nothing`. Only the string and string-array
//! forms matter for keybindings.
use vstd::prelude::*;
use crate::text::{
    chars_of, is_ws, is_whitespace, join, push_all, push_str, same, slice, string_of, trim,
    trim_chars, trim_end, trim_start,
};

verus! {

/// Where the quoted-run scanner is.
pub enum Scan {
    /// Between quoted runs.
    Outside,
    /// Inside a run opened by the quote character, with what it holds so far.
    Inside(char, Seq<char>),
    /// Just after a backslash inside a run.
    Escape(char, Seq<char>),
}

/// The character a backslash escape stands for.
pub open spec fn unescape(c: char) -> char {
    if c == 'n' {
        '\n'
    } else if c == 't' {
        '\t'
    } else {
        c
    }
}

/// One character of input.
pub open spec fn step(st: (Scan, Seq<Seq<char>>), c: char) -> (Scan, Seq<Seq<char>>) {
    match st.0 {
        Scan::Outside => if c == '\'' || c == '"' {
            (Scan::Inside(c, Seq::empty()), st.1)
        } else {
            st
        },
        Scan::Inside(q, buf) => if c == '\\' {
            (Scan::Escape(q, buf), st.1)
        } else if c == q {
            (Scan::Outside, st.1.push(buf))
        } else {
            (Scan::Inside(q, buf.push(c)), st.1)
        },
        Scan::Escape(q, buf) => (Scan::Inside(q, buf.push(unescape(c))), st.1),
    }
}

/// The scanner after reading all of `s`.
pub open spec fn run(s: Seq<char>, init: (Scan, Seq<Seq<char>>)) -> (Scan, Seq<Seq<char>>)
    decreases s.len(),
{
    if s.len() == 0 {
        init
    } else {
        step(run(s.drop_last(), init), s.last())
    }
}

/// At the end of input an unterminated run still counts.
pub open spec fn finish(st: (Scan, Seq<Seq<char>>)) -> Seq<Seq<char>> {
    match st.0 {
        Scan::Outside => st.1,
        Scan::Inside(_, buf) => st.1.push(buf),
        Scan::Escape(_, buf) => st.1.push(buf),
    }
}

/// Every quoted run in `s`, honouring backslash escapes.
pub open spec fn split_quoted_spec(s: Seq<char>) -> Seq<Seq<char>> {
    finish(run(s, (Scan::Outside, Seq::empty())))
}

/// Index of the first whitespace character.
pub open spec fn first_ws(s: Seq<char>) -> Option<int>
    decreases s.len(),
{
    if s.len() == 0 {
        None
    } else if is_ws(s[0]) {
        Some(0)
    } else {
        match first_ws(s.drop_first()) {
            Some(i) => Some(i + 1),
            None => None,
        }
    }
}

/// The value once a leading `@type` annotation is removed; `None` when the
/// annotation is all there is.
pub open spec fn strip_annotation(s: Seq<char>) -> Option<Seq<char>> {
    if s.len() > 0 && s[0] == '@' {
        let rest = s.drop_first();
        match first_ws(rest) {
            Some(i) => Some(trim_start(rest.subrange(i, rest.len() as int))),
            None => None,
        }
    } else {
        Some(s)
    }
}

/// The string `s` holds when `s` is exactly one quoted string literal: it
/// opens with a quote, and the only closing quote is its last character.
pub open spec fn single_quoted_spec(s: Seq<char>) -> Option<Seq<char>> {
    if s.len() >= 2 && (s[0] == '\'' || s[0] == '"') {
        let st = run(s.drop_last(), (Scan::Outside, Seq::empty()));
        match st.0 {
            Scan::Inside(q, buf) => if q == s.last() && st.1.len() == 0 {
                Some(buf)
            } else {
                None
            },
            _ => None,
        }
    } else {
        None
    }
}

/// The list of strings a GVariant text value represents.
pub open spec fn parse_string_list_spec(raw: Seq<char>) -> Seq<Seq<char>> {
    match strip_annotation(trim(raw)) {
        None => Seq::empty(),
        Some(s) => if s == "nothing"@ || s.len() == 0 {
            Seq::empty()
        } else if s.len() >= 2 && s[0] == '[' && s.last() == ']' {
            split_quoted_spec(s.subrange(1, s.len() - 1))
        } else {
            match single_quoted_spec(s) {
                Some(x) => seq![x],
                None => Seq::empty(),
            }
        },
    }
}

/// The text of each string.
pub open spec fn texts(v: Seq<String>) -> Seq<Seq<char>> {
    v.map_values(|s: String| s@)
}

/// The characters one character of a GVariant string literal is written as.
pub open spec fn escape_char(c: char) -> Seq<char> {
    if c == '\\' || c == '\'' {
        seq!['\\', c]
    } else {
        seq![c]
    }
}

/// `s` with backslashes and single quotes escaped.
pub open spec fn escape_spec(s: Seq<char>) -> Seq<char>
    decreases s.len(),
{
    if s.len() == 0 {
        Seq::empty()
    } else {
        escape_spec(s.drop_last()) + escape_char(s.last())
    }
}

/// `s` as a single-quoted GVariant string literal.
pub open spec fn quote_spec(s: Seq<char>) -> Seq<char> {
    seq!['\''] + escape_spec(s) + seq!['\'']
}

/// `items` as a GVariant array literal.
pub open spec fn format_string_list_spec(items: Seq<Seq<char>>) -> Seq<char> {
    if items.len() == 0 {
        "@as []"@
    } else {
        seq!['['] + join(items.map_values(|s: Seq<char>| quote_spec(s)), seq![',', ' ']) + seq![']']
    }
}

fn first_whitespace(v: &[char]) -> (r: Option<usize>)
    ensures
        r matches Some(i) ==> first_ws(v@) == Some(i as int) && i < v.len(),
        r is None ==> first_ws(v@) is None,
{
    let mut i: usize = 0;
    assert(v@.subrange(0, v@.len() as int) == v@);
    while i < v.len()
        invariant
            i <= v.len(),
            forall|j: int| 0 <= j < i ==> !is_ws(#[trigger] v@[j]),
            first_ws(v@) == match first_ws(v@.subrange(i as int, v@.len() as int)) {
                Some(k) => Some(k + i),
                None => None,
            },
        decreases v.len() - i,
    {
        if is_whitespace(v[i]) {
            return Some(i);
        }
        assert(v@.subrange(i as int, v@.len() as int).drop_first() == v@.subrange(
            i + 1,
            v@.len() as int,
        ));
        i = i + 1;
    }
    None
}

fn trim_start_chars(v: &[char]) -> (r: Vec<char>)
    ensures
        r@ == trim_start(v@),
{
    let mut i: usize = 0;
    assert(v@.subrange(0, v@.len() as int) == v@);
    while i < v.len() && is_whitespace(v[i])
        invariant
            i <= v.len(),
            trim_start(v@) == trim_start(v@.subrange(i as int, v@.len() as int)),
        decreases v.len() - i,
    {
        assert(v@.subrange(i as int, v@.len() as int).drop_first() == v@.subrange(
            i + 1,
            v@.len() as int,
        ));
        i = i + 1;
    }
    slice(v, i, v.len())
}

/// The scanner's state as the exec scan keeps it.
pub open spec fn scan_view(inside: bool, escaping: bool, quote: char, buf: Seq<char>, out: Seq<Seq<char>>) -> (
    Scan,
    Seq<Seq<char>>,
) {
    if !inside {
        (Scan::Outside, out)
    } else if escaping {
        (Scan::Escape(quote, buf), out)
    } else {
        (Scan::Inside(quote, buf), out)
    }
}

/// Scan all of `s` for quoted runs, honouring backslash escapes.
fn scan(s: &[char]) -> (r: (bool, bool, char, Vec<char>, Vec<String>))
    ensures
        run(s@, (Scan::Outside, Seq::empty())) == scan_view(r.0, r.1, r.2, r.3@, texts(r.4@)),
{
    let mut out: Vec<String> = Vec::new();
    let mut buf: Vec<char> = Vec::new();
    let mut inside = false;
    let mut escaping = false;
    let mut quote: char = '\'';
    let mut i: usize = 0;
    let ghost init = (Scan::Outside, Seq::<Seq<char>>::empty());
    assert(s@.subrange(0, 0) == Seq::<char>::empty());
    while i < s.len()
        invariant
            i <= s.len(),
            run(s@.subrange(0, i as int), init) == scan_view(inside, escaping, quote, buf@, texts(out@)),
        decreases s.len() - i,
    {
        let c = s[i];
        assert(s@.subrange(0, i + 1).drop_last() == s@.subrange(0, i as int));
        if !inside {
            if c == '\'' || c == '"' {
                inside = true;
                escaping = false;
                quote = c;
                buf = Vec::new();
            }
        } else if escaping {
            let e = if c == 'n' {
                '\n'
            } else if c == 't' {
                '\t'
            } else {
                c
            };
            buf.push(e);
            escaping = false;
        } else if c == '\\' {
            escaping = true;
        } else if c == quote {
            let ghost before = texts(out@);
            let done = string_of(&buf);
            out.push(done);
            assert(texts(out@) == before.push(buf@));
            inside = false;
        } else {
            buf.push(c);
        }
        i = i + 1;
    }
    assert(s@.subrange(0, s@.len() as int) == s@);
    (inside, escaping, quote, buf, out)
}

/// Pull every quoted run out of `s`, honouring backslash escapes.
///
/// Splitting on `,` would break on accelerators that contain a comma, so the
/// scan looks for quote pairs instead.
fn split_quoted(s: &[char]) -> (r: Vec<String>)
    ensures
        texts(r@) == split_quoted_spec(s@),
{
    let (inside, _escaping, _quote, buf, mut out) = scan(s);
    if inside {
        let ghost before = texts(out@);
        let done = string_of(&buf);
        out.push(done);
        assert(texts(out@) == before.push(buf@));
    }
    out
}

/// The one string `s` is, when it is exactly one quoted string literal.
fn single_quoted(s: &[char]) -> (r: Option<String>)
    ensures
        match single_quoted_spec(s@) {
            Some(x) => r matches Some(t) && t@ == x,
            None => r is None,
        },
{
    let n = s.len();
    if n < 2 || !(s[0] == '\'' || s[0] == '"') {
        return None;
    }
    let head = slice(s, 0, n - 1);
    assert(head@ == s@.drop_last());
    let (inside, escaping, quote, buf, out) = scan(&head);
    if inside && !escaping && quote == s[n - 1] && out.len() == 0 {
        Some(string_of(&buf))
    } else {
        None
    }
}

/// Parse a GVariant text value into the list of strings it represents.
///
/// Accepts a bare string (`'<Alt>F7'`), an array (`['a', 'b']`), the empty
/// array in either spelling (`[]`, `@as []`), and `nothing`. Anything else
/// yields an empty list rather than an error — an unparseable value simply
/// holds no shortcut that could conflict.
pub fn parse_string_list(raw: &str) -> (r: Vec<String>)
    ensures
        texts(r@) == parse_string_list_spec(raw@),
{
    let mut s = trim_chars(&chars_of(raw));
    if s.len() > 0 && s[0] == '@' {
        let rest = slice(&s, 1, s.len());
        assert(rest@ == s@.drop_first());
        match first_whitespace(&rest) {
            Some(i) => {
                s = trim_start_chars(&slice(&rest, i, rest.len()));
            },
            None => {
                return Vec::new();
            },
        }
    }
    if same(&s, "nothing") || s.len() == 0 {
        return Vec::new();
    }
    if s.len() >= 2 && s[0] == '[' && s[s.len() - 1] == ']' {
        return split_quoted(&slice(&s, 1, s.len() - 1));
    }
    match single_quoted(&s) {
        Some(x) => {
            let mut r: Vec<String> = Vec::new();
            r.push(x);
            assert(texts(r@) =~= seq![r@[0]@]);
            r
        },
        None => Vec::new(),
    }
}

fn escape(s: &[char]) -> (r: Vec<char>)
    ensures
        r@ == escape_spec(s@),
{
    let mut r: Vec<char> = Vec::new();
    let mut i: usize = 0;
    while i < s.len()
        invariant
            i <= s.len(),
            r@ == escape_spec(s@.subrange(0, i as int)),
        decreases s.len() - i,
    {
        let c = s[i];
        assert(s@.subrange(0, i + 1).drop_last() == s@.subrange(0, i as int));
        if c == '\\' || c == '\'' {
            r.push('\\');
        }
        r.push(c);
        i = i + 1;
    }
    assert(s@.subrange(0, s@.len() as int) == s@);
    r
}

/// Render a list of strings as a GVariant array literal for `gsettings set`.
pub fn format_string_list(items: &[String]) -> (r: String)
    ensures
        r@ == format_string_list_spec(texts(items@)),
{
    if items.len() == 0 {
        return string_of(&chars_of("@as []"));
    }
    let ghost quoted = texts(items@).map_values(|s: Seq<char>| quote_spec(s));
    let mut body: Vec<char> = Vec::new();
    let mut i: usize = 0;
    while i < items.len()
        invariant
            i <= items.len(),
            quoted == texts(items@).map_values(|s: Seq<char>| quote_spec(s)),
            body@ == join(quoted.subrange(0, i as int), seq![',', ' ']),
        decreases items.len() - i,
    {
        assert(quoted.subrange(0, i + 1).drop_last() == quoted.subrange(0, i as int));
        if i > 0 {
            body.push(',');
            body.push(' ');
        }
        let item = chars_of(items[i].as_str());
        body.push('\'');
        push_all(&mut body, &escape(&item));
        body.push('\'');
        assert(quoted[i as int] == quote_spec(items@[i as int]@));
        i = i + 1;
    }
    assert(quoted.subrange(0, items@.len() as int) == quoted);
    let mut out: Vec<char> = Vec::new();
    out.push('[');
    push_all(&mut out, &body);
    out.push(']');
    string_of(&out)
}

/// Quote a single string as a GVariant string literal.
pub fn format_string(s: &str) -> (r: String)
    ensures
        r@ == quote_spec(s@),
{
    let mut out: Vec<char> = Vec::new();
    out.push('\'');
    push_all(&mut out, &escape(&chars_of(s)));
    out.push('\'');
    string_of(&out)
}


proof fn lemma_run_concat(a: Seq<char>, b: Seq<char>, init: (Scan, Seq<Seq<char>>))
    ensures
        run(a + b, init) == run(b, run(a, init)),
    decreases b.len(),
{
    if b.len() == 0 {
        assert(a + b == a);
    } else {
        assert((a + b).drop_last() == a + b.drop_last());
        assert((a + b).last() == b.last());
        lemma_run_concat(a, b.drop_last(), init);
    }
}

proof fn lemma_run_one(c: char, st: (Scan, Seq<Seq<char>>))
    ensures
        run(seq![c], st) == step(st, c),
{
    let s = seq![c];
    assert(s.drop_last() == Seq::<char>::empty());
    assert(s.last() == c);
    assert(run(Seq::<char>::empty(), st) == st);
}

proof fn lemma_run_two(a: char, b: char, st: (Scan, Seq<Seq<char>>))
    ensures
        run(seq![a, b], st) == step(step(st, a), b),
{
    let s = seq![a, b];
    assert(s.drop_last() == seq![a]);
    assert(s.last() == b);
    lemma_run_one(a, st);
}

proof fn lemma_run_escape(x: Seq<char>, buf: Seq<char>, acc: Seq<Seq<char>>)
    ensures
        run(escape_spec(x), (Scan::Inside('\'', buf), acc)) == (Scan::Inside('\'', buf + x), acc),
    decreases x.len(),
{
    if x.len() == 0 {
        assert(buf + x == buf);
    } else {
        let y = x.drop_last();
        let c = x.last();
        lemma_run_escape(y, buf, acc);
        lemma_run_concat(escape_spec(y), escape_char(c), (Scan::Inside('\'', buf), acc));
        let st = (Scan::Inside('\'', buf + y), acc);
        assert(buf + x == (buf + y).push(c));
        if c == '\\' || c == '\'' {
            lemma_run_two('\\', c, st);
        } else {
            lemma_run_one(c, st);
        }
    }
}

proof fn lemma_run_quote(x: Seq<char>, acc: Seq<Seq<char>>)
    ensures
        run(quote_spec(x), (Scan::Outside, acc)) == (Scan::Outside, acc.push(x)),
{
    let q = seq!['\''];
    lemma_run_one('\'', (Scan::Outside, acc));
    lemma_run_concat(q, escape_spec(x), (Scan::Outside, acc));
    lemma_run_concat(q + escape_spec(x), q, (Scan::Outside, acc));
    lemma_run_escape(x, Seq::empty(), acc);
    lemma_run_one('\'', (Scan::Inside('\'', x), acc));
    assert(quote_spec(x) == (q + escape_spec(x)) + q);
    assert(Seq::<char>::empty() + x == x);
}

proof fn lemma_run_join(items: Seq<Seq<char>>)
    requires
        items.len() >= 1,
    ensures
        run(
            join(items.map_values(|s: Seq<char>| quote_spec(s)), seq![',', ' ']),
            (Scan::Outside, Seq::empty()),
        ) == (Scan::Outside, items),
    decreases items.len(),
{
    let qs = items.map_values(|s: Seq<char>| quote_spec(s));
    if items.len() == 1 {
        lemma_run_quote(items[0], Seq::empty());
        assert(Seq::<Seq<char>>::empty().push(items[0]) == items);
    } else {
        let front = items.drop_last();
        assert(qs.drop_last() == front.map_values(|s: Seq<char>| quote_spec(s)));
        lemma_run_join(front);
        let sep = seq![',', ' '];
        let j = join(qs.drop_last(), sep);
        lemma_run_concat(j + sep, qs.last(), (Scan::Outside, Seq::empty()));
        lemma_run_concat(j, sep, (Scan::Outside, Seq::empty()));
        lemma_run_two(',', ' ', (Scan::Outside, front));
        lemma_run_quote(items.last(), front);
        assert(front.push(items.last()) == items);
    }
}

/// Parsing the array literal written for `items` gives `items` back, whatever
/// characters the strings hold.
pub proof fn law_format_parse_roundtrip(items: Seq<Seq<char>>)
    ensures
        parse_string_list_spec(format_string_list_spec(items)) == items,
{
    reveal_strlit("nothing");
    if items.len() == 0 {
        reveal_strlit("@as []");
        let f = "@as []"@;
        assert(f == seq!['@', 'a', 's', ' ', '[', ']']);
        assert(trim_start(f) == f);
        assert(f.last() == ']');
        assert(trim(f) == f);
        let rest = f.drop_first();
        assert(rest == seq!['a', 's', ' ', '[', ']']);
        assert(rest.drop_first() == seq!['s', ' ', '[', ']']);
        assert(rest.drop_first().drop_first() == seq![' ', '[', ']']);
        assert(first_ws(seq![' ', '[', ']']) == Some(0int));
        assert(first_ws(seq!['s', ' ', '[', ']']) == Some(1int));
        assert(first_ws(rest) == Some(2int));
        let tail = rest.subrange(2, rest.len() as int);
        assert(tail == seq![' ', '[', ']']);
        assert(tail.drop_first() == seq!['[', ']']);
        assert(trim_start(seq!['[', ']']) == seq!['[', ']']);
        assert(trim_start(tail) == seq!['[', ']']);
        let s = seq!['[', ']'];
        assert(s.subrange(1, 1) == Seq::<char>::empty());
    } else {
        let sep = seq![',', ' '];
        let j = join(items.map_values(|s: Seq<char>| quote_spec(s)), sep);
        let f = format_string_list_spec(items);
        assert(f == seq!['['] + j + seq![']']);
        assert(f[0] == '[');
        assert(f.last() == ']');
        assert(trim_start(f) == f);
        assert(trim(f) == f);
        assert(f != "nothing"@);
        assert(f.subrange(1, f.len() - 1) == j);
        lemma_run_join(items);
    }
}


/// A quoted string reads back as that one string, whatever characters it holds.
pub proof fn law_quote_parse_roundtrip(x: Seq<char>)
    ensures
        parse_string_list_spec(quote_spec(x)) == seq![x],
{
    reveal_strlit("nothing");
    let q = quote_spec(x);
    assert(q[0] == '\'');
    assert(q.last() == '\'');
    assert(trim_start(q) == q);
    assert(trim_end(q) == q);
    assert(trim(q) == q);
    assert(q != "nothing"@) by {
        assert("nothing"@[0] == 'n');
    }
    lemma_run_quote(x, Seq::empty());
    assert(Seq::<Seq<char>>::empty().push(x) == seq![x]);
}


proof fn lemma_run_quoted(q: char, x: Seq<char>, acc: Seq<Seq<char>>)
    requires
        q == '\'' || q == '"',
        forall|j: int| 0 <= j < x.len() ==> #[trigger] x[j] != q && x[j] != '\\',
    ensures
        run(seq![q] + x, (Scan::Outside, acc)) == (Scan::Inside(q, x), acc),
    decreases x.len(),
{
    let s = seq![q] + x;
    if x.len() == 0 {
        assert(s.drop_last() =~= Seq::<char>::empty());
        assert(s.last() == q);
        assert(run(s.drop_last(), (Scan::Outside, acc)) == (Scan::Outside, acc));
        assert(x =~= Seq::<char>::empty());
    } else {
        let d = x.drop_last();
        assert forall|j: int| 0 <= j < d.len() implies #[trigger] d[j] != q && d[j] != '\\' by {
            assert(d[j] == x[j]);
        }
        lemma_run_quoted(q, d, acc);
        assert(s.drop_last() =~= seq![q] + d);
        assert(s.last() == x[x.len() - 1]);
        assert(x[x.len() - 1] != q && x[x.len() - 1] != '\\');
        assert(d.push(x.last()) =~= x);
    }
}

/// Inside a quoted string every character other than a backslash and the
/// closing quote is kept as it is: a string opened by `"` keeps its single
/// quotes, one opened by `'` its double quotes. So a bare string, and an
/// array holding just that string, both read as that text.
pub proof fn law_quoted_text_kept(q: char, x: Seq<char>)
    requires
        q == '\'' || q == '"',
        forall|j: int| 0 <= j < x.len() ==> #[trigger] x[j] != q && x[j] != '\\',
    ensures
        parse_string_list_spec(seq![q] + x + seq![q]) == seq![x],
        parse_string_list_spec(seq!['['] + seq![q] + x + seq![q] + seq![']']) == seq![x],
{
    reveal_strlit("nothing");
    assert("nothing"@[0] == 'n');
    let e = Seq::<Seq<char>>::empty();
    lemma_run_quoted(q, x, e);
    let s = seq![q] + x + seq![q];
    assert(s[0] == q);
    assert(s.last() == q);
    assert(!is_ws(q));
    assert(trim_start(s) == s);
    assert(trim_end(s) == s);
    assert(trim(s) == s);
    assert(strip_annotation(s) == Some(s));
    assert(s != "nothing"@);
    assert(s.drop_last() =~= seq![q] + x);
    assert(single_quoted_spec(s) == Some(x));
    let t = seq!['['] + s + seq![']'];
    assert(t =~= seq!['['] + seq![q] + x + seq![q] + seq![']']);
    assert(t[0] == '[');
    assert(t.last() == ']');
    assert(trim_start(t) == t);
    assert(trim_end(t) == t);
    assert(trim(t) == t);
    assert(strip_annotation(t) == Some(t));
    assert(t != "nothing"@);
    assert(t.subrange(1, t.len() - 1) =~= s);
    assert(run(s, (Scan::Outside, e)) == step(run(s.drop_last(), (Scan::Outside, e)), q));
    assert(e.push(x) =~= seq![x]);
}


proof fn lemma_run_plain(q: char, b: Seq<char>, x: Seq<char>, acc: Seq<Seq<char>>)
    requires
        forall|j: int| 0 <= j < x.len() ==> #[trigger] x[j] != q && x[j] != '\\',
    ensures
        run(x, (Scan::Inside(q, b), acc)) == (Scan::Inside(q, b + x), acc),
    decreases x.len(),
{
    if x.len() == 0 {
        assert(b + x =~= b);
    } else {
        let d = x.drop_last();
        assert forall|j: int| 0 <= j < d.len() implies #[trigger] d[j] != q && d[j] != '\\' by {
            assert(d[j] == x[j]);
        }
        lemma_run_plain(q, b, d, acc);
        assert(x[x.len() - 1] != q && x[x.len() - 1] != '\\');
        assert((b + d).push(x.last()) =~= b + x);
    }
}

/// A backslash inside a quoted string stands for the character after it,
/// with `\n` and `\t` read as a line break and a tab: what surrounds the
/// escape is kept as it is.
pub proof fn law_escape_read(q: char, x: Seq<char>, c: char, y: Seq<char>)
    requires
        q == '\'' || q == '"',
        forall|j: int| 0 <= j < x.len() ==> #[trigger] x[j] != q && x[j] != '\\',
        forall|j: int| 0 <= j < y.len() ==> #[trigger] y[j] != q && y[j] != '\\',
    ensures
        parse_string_list_spec(seq![q] + x + seq!['\\', c] + y + seq![q]) == seq![
            x.push(if c == 'n' { '\n' } else if c == 't' { '\t' } else { c }) + y,
        ],
{
    reveal_strlit("nothing");
    assert("nothing"@[0] == 'n');
    let e = Seq::<Seq<char>>::empty();
    let o = (Scan::Outside, e);
    let body = seq![q] + x + seq!['\\', c] + y;
    let s = body + seq![q];
    let want = x.push(if c == 'n' { '\n' } else if c == 't' { '\t' } else { c }) + y;
    lemma_run_quoted(q, x, e);
    lemma_run_concat(seq![q] + x, seq!['\\', c] + y, o);
    lemma_run_concat(seq!['\\', c], y, (Scan::Inside(q, x), e));
    assert(seq!['\\', c].drop_last() =~= seq!['\\']);
    assert(seq!['\\'].drop_last() =~= Seq::<char>::empty());
    assert(run(seq!['\\'].drop_last(), (Scan::Inside(q, x), e)) == (Scan::Inside(q, x), e));
    assert(seq!['\\'].last() == '\\');
    assert(run(seq!['\\'], (Scan::Inside(q, x), e)) == (Scan::Escape(q, x), e));
    assert(seq!['\\', c].last() == c);
    let xe = x.push(if c == 'n' { '\n' } else if c == 't' { '\t' } else { c });
    assert(run(seq!['\\', c], (Scan::Inside(q, x), e)) == (Scan::Inside(q, xe), e));
    lemma_run_plain(q, xe, y, e);
    assert(seq![q] + x + seq!['\\', c] + y =~= (seq![q] + x) + (seq!['\\', c] + y));
    assert(run(body, o) == (Scan::Inside(q, want), e));
    assert(s[0] == q);
    assert(s.last() == q);
    assert(trim_start(s) == s);
    assert(trim_end(s) == s);
    assert(trim(s) == s);
    assert(strip_annotation(s) == Some(s));
    assert(s != "nothing"@);
    assert(s.drop_last() =~= body);
    assert(single_quoted_spec(s) == Some(want));
}

} // verus!
