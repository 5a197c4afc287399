//! What adding and removing RatClick's keyd block promises across calls, and
//! what reading the config back finds.
use vstd::prelude::*;
use crate::accel::{
    canonical_key_spec, keyd_layer_spec, Accel, layer_fold, layer_part_spec, layer_parts, model,
    modifiers_from_layer_spec, ALT_BIT, CONTROL_BIT, SHIFT_BIT, SUPER_BIT,
};
use crate::accel_laws::{lemma_bits_rebuild, lemma_key_alnum, lemma_key_alone};
use crate::shortcut::keyd::{
    block_spec, command_line, conflicts_spec, entries, entry, has_ids_line, header_spec, installed_spec,
    keep_lines, keep_step, layer_body, layer_name, layer_of_section, layer_order,
    layer_sections, mapping_spec, parse_config_spec, read_lines, read_step, splice_spec, squeeze,
    strip_spec, trim_blank_tail, uses_layer, Binding, BEGIN, END,
};
use crate::text::{
    has_char, is_alnum, is_ws, join, lemma_first_index, lemma_first_index_none,
    lemma_split_nonempty, lines, split, strip_cr, trim, trim_end, trim_start,
};

verus! {

/// The shape of a managed block: its first line is the opening marker, its
/// last the closing one, and no line between them closes it early.
pub open spec fn block_shape(block: Seq<char>) -> bool {
    let ls = lines(block);
    &&& ls.len() >= 2
    &&& trim(ls[0]) == BEGIN@
    &&& trim(ls.last()) == END@
    &&& forall|i: int| 0 < i < ls.len() - 1 ==> trim(#[trigger] ls[i]) != END@
}

proof fn lemma_split_after(x: Seq<char>, y: Seq<char>, sep: char)
    requires
        x.len() > 0,
        x.last() == sep,
    ensures
        split(x, sep).last() == Seq::<char>::empty(),
        split(x + y, sep) == split(x, sep).drop_last() + split(y, sep),
    decreases y.len(),
{
    lemma_split_nonempty(x.drop_last(), sep);
    if y.len() == 0 {
        assert(x + y =~= x);
        assert(split(x, sep).drop_last() + split(y, sep) =~= split(x, sep));
    } else {
        let yl = y.drop_last();
        lemma_split_after(x, yl, sep);
        lemma_split_nonempty(yl, sep);
        assert((x + y).drop_last() =~= x + yl);
        assert((x + y).last() == y.last());
        let a = split(x, sep).drop_last();
        let b = split(yl, sep);
        if y.last() == sep {
            assert((a + b).push(Seq::empty()) =~= a + b.push(Seq::empty()));
        } else {
            let v = b.last().push(y.last());
            assert((a + b).last() == b.last());
            assert((a + b).update((a + b).len() - 1, v) =~= a + b.update(b.len() - 1, v));
        }
    }
}

proof fn lemma_lines_after_newline(x: Seq<char>, y: Seq<char>)
    requires
        x.len() > 0,
        x.last() == '\n',
    ensures
        lines(x + y) == lines(x) + lines(y),
{
    lemma_split_after(x, y, '\n');
    lemma_split_nonempty(y, '\n');
    let p = split(x, '\n').drop_last();
    let q = split(y, '\n');
    assert((p + q).drop_last() =~= p + q.drop_last());
    assert((p + q).last() == q.last());
    assert((p + q.drop_last()).map_values(|s: Seq<char>| strip_cr(s)) =~= p.map_values(
        |s: Seq<char>| strip_cr(s),
    ) + q.drop_last().map_values(|s: Seq<char>| strip_cr(s)));
    if q.last().len() != 0 {
        assert((p.map_values(|s: Seq<char>| strip_cr(s)) + q.drop_last().map_values(
            |s: Seq<char>| strip_cr(s),
        )).push(q.last()) =~= p.map_values(|s: Seq<char>| strip_cr(s)) + q.drop_last().map_values(
            |s: Seq<char>| strip_cr(s),
        ).push(q.last()));
    }
}

proof fn lemma_lines_newline()
    ensures
        lines("\n"@) == seq![Seq::<char>::empty()],
{
    reveal_strlit("\n");
    let e = Seq::<char>::empty();
    assert("\n"@ =~= e.push('\n'));
    assert(e.push('\n').drop_last() =~= e);
    assert(split(e, '\n') == seq![e]);
    assert(split("\n"@, '\n') == seq![e].push(e));
    assert(seq![e].push(e).drop_last() =~= seq![e]);
    assert(seq![e].map_values(|s: Seq<char>| strip_cr(s)) =~= seq![e]);
}

proof fn lemma_lines_empty()
    ensures
        lines(Seq::<char>::empty()) == Seq::<Seq<char>>::empty(),
{
    let e = Seq::<char>::empty();
    assert(split(e, '\n') == seq![e]);
    assert(seq![e].drop_last().map_values(|s: Seq<char>| strip_cr(s)) =~= Seq::<Seq<char>>::empty());
}

proof fn lemma_keep_concat(st: (bool, Seq<char>), a: Seq<Seq<char>>, b: Seq<Seq<char>>)
    ensures
        keep_lines(st, a + b) == keep_lines(keep_lines(st, a), b),
    decreases b.len(),
{
    if b.len() == 0 {
        assert(a + b =~= a);
    } else {
        assert((a + b).drop_last() =~= a + b.drop_last());
        assert((a + b).last() == b.last());
        lemma_keep_concat(st, a, b.drop_last());
    }
}

proof fn lemma_keep_skipping(out: Seq<char>, ls: Seq<Seq<char>>)
    requires
        forall|i: int| 0 <= i < ls.len() ==> trim(#[trigger] ls[i]) != END@,
    ensures
        keep_lines((true, out), ls) == (true, out),
    decreases ls.len(),
{
    if ls.len() > 0 {
        assert forall|i: int| 0 <= i < ls.drop_last().len() implies trim(
            #[trigger] ls.drop_last()[i],
        ) != END@ by {
            assert(ls.drop_last()[i] == ls[i]);
        }
        lemma_keep_skipping(out, ls.drop_last());
        assert(trim(ls[ls.len() - 1]) != END@);
    }
}

proof fn lemma_markers_differ()
    ensures
        BEGIN@ != END@,
        BEGIN@.len() > 0,
        END@.len() > 0,
{
    reveal_strlit("# >>> ratclick begin (managed by RatClick — do not edit) >>>");
    reveal_strlit("# <<< ratclick end <<<");
    assert(BEGIN@[2] != END@[2]);
}

proof fn lemma_keep_block(st: (bool, Seq<char>), block: Seq<char>)
    requires
        block_shape(block),
    ensures
        keep_lines(st, lines(block)) == (false, st.1),
{
    lemma_markers_differ();
    let ls = lines(block);
    let n = ls.len() as int;
    let first = ls.subrange(0, 1);
    let mid = ls.subrange(1, n - 1);
    let last = ls.subrange(n - 1, n);
    assert(ls =~= first + mid + last);
    lemma_keep_concat(st, first + mid, last);
    lemma_keep_concat(st, first, mid);
    assert(first.drop_last() =~= Seq::<Seq<char>>::empty());
    assert(keep_lines(st, Seq::<Seq<char>>::empty()) == st);
    assert(keep_lines(st, first) == keep_step(st, ls[0]));
    assert(keep_lines(st, first) == (true, st.1));
    assert forall|i: int| 0 <= i < mid.len() implies trim(#[trigger] mid[i]) != END@ by {
        assert(mid[i] == ls[i + 1]);
    }
    lemma_keep_skipping(st.1, mid);
    assert(last.drop_last() =~= Seq::<Seq<char>>::empty());
    assert(keep_lines((true, st.1), Seq::<Seq<char>>::empty()) == (true, st.1));
    assert(last[0] == ls.last());
    assert(keep_lines((true, st.1), last) == keep_step((true, st.1), ls.last()));
}

proof fn lemma_keep_newline_end(st: (bool, Seq<char>), ls: Seq<Seq<char>>)
    requires
        st.1.len() == 0 || st.1.last() == '\n',
    ensures
        keep_lines(st, ls).1.len() == 0 || keep_lines(st, ls).1.last() == '\n',
    decreases ls.len(),
{
    reveal_strlit("\n");
    if ls.len() > 0 {
        lemma_keep_newline_end(st, ls.drop_last());
    }
}

proof fn lemma_squeeze_newline_end(s: Seq<char>)
    requires
        s.len() > 0,
        s.last() == '\n',
    ensures
        squeeze(s).len() > 0,
        squeeze(s).last() == '\n',
{
}

proof fn lemma_tail_newline_end(s: Seq<char>)
    requires
        s.len() > 0,
        s.last() == '\n',
    ensures
        trim_blank_tail(s).len() > 0,
        trim_blank_tail(s).last() == '\n',
    decreases s.len(),
{
    if s.len() >= 2 && s[s.len() - 1] == '\n' && s[s.len() - 2] == '\n' {
        lemma_tail_newline_end(s.drop_last());
    }
}

proof fn lemma_extra_newline(o: Seq<char>)
    requires
        o.len() > 0,
        o.last() == '\n',
    ensures
        trim_blank_tail(squeeze(o.push('\n'))) == trim_blank_tail(squeeze(o)),
{
    lemma_squeeze_newline_end(o);
    let sq = squeeze(o);
    assert(o.push('\n').drop_last() =~= o);
    if !(sq.len() >= 2 && sq[sq.len() - 1] == '\n' && sq[sq.len() - 2] == '\n') {
        assert(squeeze(o.push('\n')) == sq.push('\n'));
        assert(sq.push('\n').drop_last() =~= sq);
    }
}

/// Removing the block undoes adding it: for a config that holds no block of
/// RatClick's and has an `[ids]` section, stripping the managed block from the
/// spliced text gives back the original bytes.
pub proof fn law_strip_undoes_splice(text: Seq<char>, block: Seq<char>)
    requires
        strip_spec(text) == text,
        has_ids_line(text),
        block_shape(block),
    ensures
        strip_spec(splice_spec(text, block)) == text,
{
    reveal_strlit("\n");
    lemma_markers_differ();
    let init = (false, Seq::<char>::empty());
    let kept = keep_lines(init, lines(text));
    let o = kept.1;
    lemma_lines_empty();
    assert(text.len() > 0);
    lemma_keep_newline_end(init, lines(text));
    if o.len() == 0 {
        assert(squeeze(o) =~= o);
    }
    assert(o.len() > 0);
    lemma_squeeze_newline_end(o);
    lemma_tail_newline_end(squeeze(o));
    assert(text.last() == '\n');
    let spliced = text + "\n"@ + block;
    assert(splice_spec(text, block) == spliced);
    let head = text + "\n"@;
    assert(spliced =~= head + block);
    lemma_lines_after_newline(text, "\n"@);
    lemma_lines_newline();
    assert(head.last() == '\n');
    lemma_lines_after_newline(head, block);
    let e = Seq::<char>::empty();
    assert(lines(spliced) =~= lines(text) + seq![e] + lines(block));
    lemma_keep_concat(init, lines(text) + seq![e], lines(block));
    lemma_keep_concat(init, lines(text), seq![e]);
    assert(seq![e].drop_last() =~= Seq::<Seq<char>>::empty());
    assert(trim_start(e) == e);
    assert(trim_end(e) == e);
    assert(trim(e) == e);
    let after = keep_step(kept, e);
    assert(keep_lines(kept, Seq::<Seq<char>>::empty()) == kept);
    assert(seq![e].last() == e);
    assert(keep_lines(kept, seq![e]) == after);
    lemma_keep_block(after, block);
    if !kept.0 {
        assert(after.1 =~= o.push('\n'));
        lemma_extra_newline(o);
    }
}

/// Installing again replaces the block rather than adding a second one:
/// splicing a new block into an already spliced text is the same as splicing
/// it into the original. The original may itself hold an old block of
/// RatClick's; what is asked is that stripping it once leaves a config with an
/// `[ids]` section that a second stripping does not change.
///
/// The second condition is not met by every text: `str::lines` takes one
/// carriage return off a line, so `"x\r\r\n[ids]\n"` loses one `\r` to each
/// stripping, and there a reinstall does change the user's line.
pub proof fn law_splice_replaces(text: Seq<char>, first: Seq<char>, second: Seq<char>)
    requires
        strip_spec(strip_spec(text)) == strip_spec(text),
        has_ids_line(strip_spec(text)),
        block_shape(first),
    ensures
        splice_spec(splice_spec(text, first), second) == splice_spec(text, second),
{
    let c = strip_spec(text);
    law_strip_undoes_splice(c, first);
    assert(splice_spec(text, first) == splice_spec(c, first));
}


/// A line of the managed block between its markers: it ends in `]` or `)`.
pub open spec fn inner_line(l: Seq<char>) -> bool {
    l.len() > 0 && (l.last() == ']' || l.last() == ')')
}

/// Text made of whole lines, each of them an inner line.
pub open spec fn inner_text(s: Seq<char>) -> bool {
    &&& (s.len() == 0 || s.last() == '\n')
    &&& forall|i: int| 0 <= i < lines(s).len() ==> inner_line(#[trigger] lines(s)[i])
}

proof fn lemma_split_alone(l: Seq<char>, sep: char)
    requires
        !has_char(l, sep),
    ensures
        split(l, sep) == seq![l],
    decreases l.len(),
{
    if l.len() > 0 {
        let p = l.drop_last();
        assert(!has_char(p, sep)) by {
            if has_char(p, sep) {
                let i = choose|i: int| 0 <= i < p.len() && p[i] == sep;
                assert(l[i] == sep);
            }
        }
        lemma_split_alone(p, sep);
        assert(l.last() != sep);
        assert(p.push(l.last()) =~= l);
        assert(seq![p].update(0, p.push(l.last())) =~= seq![l]);
    } else {
        assert(l =~= Seq::<char>::empty());
    }
}

proof fn lemma_one_line(l: Seq<char>)
    requires
        !has_char(l, '\n'),
        inner_line(l),
    ensures
        inner_text(l + "\n"@),
        lines(l + "\n"@) == seq![l],
{
    reveal_strlit("\n");
    let x = l + "\n"@;
    assert(x =~= l.push('\n'));
    assert(x.drop_last() =~= l);
    lemma_split_alone(l, '\n');
    assert(split(x, '\n') == seq![l].push(Seq::<char>::empty()));
    assert(seq![l].push(Seq::<char>::empty()).drop_last() =~= seq![l]);
    assert(strip_cr(l) == l);
    assert(seq![l].map_values(|p: Seq<char>| strip_cr(p)) =~= seq![l]);
    assert(lines(x) =~= seq![l]);
}

proof fn lemma_inner_concat(x: Seq<char>, y: Seq<char>)
    requires
        inner_text(x),
        inner_text(y),
    ensures
        inner_text(x + y),
{
    if x.len() == 0 {
        assert(x + y =~= y);
    } else {
        lemma_lines_after_newline(x, y);
        if y.len() > 0 {
            assert((x + y).last() == y.last());
        } else {
            assert(x + y =~= x);
        }
        assert forall|i: int| 0 <= i < lines(x + y).len() implies inner_line(
            #[trigger] lines(x + y)[i],
        ) by {
            if i < lines(x).len() {
                assert(lines(x + y)[i] == lines(x)[i]);
            } else {
                assert(lines(x + y)[i] == lines(y)[i - lines(x).len()]);
            }
        }
    }
}

proof fn lemma_empty_inner()
    ensures
        inner_text(Seq::<char>::empty()),
{
    lemma_lines_empty();
}

pub open spec fn no_newline(s: Seq<char>) -> bool {
    !has_char(s, '\n')
}

proof fn lemma_no_newline_concat(a: Seq<char>, b: Seq<char>)
    requires
        no_newline(a),
        no_newline(b),
    ensures
        no_newline(a + b),
{
    if has_char(a + b, '\n') {
        let i = choose|i: int| 0 <= i < (a + b).len() && (a + b)[i] == '\n';
        if i < a.len() {
            assert(a[i] == '\n');
        } else {
            assert(b[i - a.len()] == '\n');
        }
    }
}

proof fn lemma_join_no_newline(parts: Seq<Seq<char>>)
    requires
        forall|i: int| 0 <= i < parts.len() ==> no_newline(#[trigger] parts[i]),
    ensures
        no_newline(join(parts, seq!['+'])),
    decreases parts.len(),
{
    if parts.len() == 1 {
        assert(no_newline(parts[0]));
    } else if parts.len() > 1 {
        assert forall|i: int| 0 <= i < parts.drop_last().len() implies no_newline(
            #[trigger] parts.drop_last()[i],
        ) by {
            assert(parts.drop_last()[i] == parts[i]);
        }
        lemma_join_no_newline(parts.drop_last());
        assert(no_newline(seq!['+']));
        lemma_no_newline_concat(join(parts.drop_last(), seq!['+']), seq!['+']);
        assert(no_newline(parts[parts.len() - 1]));
        lemma_no_newline_concat(join(parts.drop_last(), seq!['+']) + seq!['+'], parts.last());
    } else {
        assert(join(parts, seq!['+']) =~= Seq::<char>::empty());
    }
}

proof fn lemma_layer_name_no_newline(m: u8)
    ensures
        no_newline(layer_name(m)),
{
    reveal_strlit("main");
    reveal_strlit("control");
    reveal_strlit("alt");
    reveal_strlit("shift");
    reveal_strlit("meta");
    let parts = layer_parts(m);
    assert forall|i: int| 0 <= i < parts.len() implies no_newline(#[trigger] parts[i]) by {
        assert(parts[i] == "control"@ || parts[i] == "alt"@ || parts[i] == "shift"@ || parts[i]
            == "meta"@);
    }
    lemma_join_no_newline(parts);
}

proof fn lemma_body_inner(accels: Seq<(u8, Seq<char>)>, layer: Seq<char>, command: Seq<char>)
    requires
        no_newline(command),
        forall|k: int| 0 <= k < accels.len() ==> no_newline(#[trigger] accels[k].1),
    ensures
        inner_text(layer_body(accels, layer, command)),
    decreases accels.len(),
{
    if accels.len() == 0 {
        lemma_empty_inner();
    } else {
        let a = accels.last();
        assert forall|k: int| 0 <= k < accels.drop_last().len() implies no_newline(
            #[trigger] accels.drop_last()[k].1,
        ) by {
            assert(accels.drop_last()[k] == accels[k]);
        }
        lemma_body_inner(accels.drop_last(), layer, command);
        let tail = if layer_name(a.0) == layer {
            command_line(a.1, command)
        } else {
            Seq::empty()
        };
        if layer_name(a.0) == layer {
            reveal_strlit(" = command(");
            reveal_strlit(")");
            reveal_strlit(")\n");
            reveal_strlit("\n");
            let l = a.1 + " = command("@ + command + ")"@;
            assert(no_newline(accels[accels.len() - 1].1));
            lemma_no_newline_concat(a.1, " = command("@);
            lemma_no_newline_concat(a.1 + " = command("@, command);
            lemma_no_newline_concat(a.1 + " = command("@ + command, ")"@);
            assert(command_line(a.1, command) =~= l + "\n"@);
            lemma_one_line(l);
        } else {
            lemma_empty_inner();
        }
        lemma_inner_concat(layer_body(accels.drop_last(), layer, command), tail);
    }
}

proof fn lemma_sections_inner(
    layers: Seq<Seq<char>>,
    accels: Seq<(u8, Seq<char>)>,
    command: Seq<char>,
)
    requires
        no_newline(command),
        forall|k: int| 0 <= k < accels.len() ==> no_newline(#[trigger] accels[k].1),
        forall|i: int| 0 <= i < layers.len() ==> no_newline(#[trigger] layers[i]),
    ensures
        inner_text(layer_sections(layers, accels, command)),
    decreases layers.len(),
{
    if layers.len() == 0 {
        lemma_empty_inner();
    } else {
        let l = layers.last();
        assert forall|i: int| 0 <= i < layers.drop_last().len() implies no_newline(
            #[trigger] layers.drop_last()[i],
        ) by {
            assert(layers.drop_last()[i] == layers[i]);
        }
        lemma_sections_inner(layers.drop_last(), accels, command);
        reveal_strlit("[");
        reveal_strlit("]");
        reveal_strlit("]\n");
        reveal_strlit("\n");
        let h = "["@ + l + "]"@;
        assert(no_newline(layers[layers.len() - 1]));
        lemma_no_newline_concat("["@, l);
        lemma_no_newline_concat("["@ + l, "]"@);
        lemma_one_line(h);
        let head = "["@ + l + "]\n"@;
        assert(head =~= h + "\n"@);
        lemma_body_inner(accels, l, command);
        let prev = layer_sections(layers.drop_last(), accels, command);
        lemma_inner_concat(head, layer_body(accels, l, command));
        lemma_inner_concat(prev, head + layer_body(accels, l, command));
        assert(layer_sections(layers, accels, command) =~= prev + (head + layer_body(
            accels,
            l,
            command,
        )));
    }
}

proof fn lemma_marker_line(m: Seq<char>)
    requires
        m.len() > 0,
        !is_ws(m[0]),
        !is_ws(m.last()),
        no_newline(m),
        m.last() != '\r',
    ensures
        trim(m) == m,
        lines(m + "\n"@) == seq![m],
{
    reveal_strlit("\n");
    lemma_split_alone(m, '\n');
    let x = m + "\n"@;
    assert(x =~= m.push('\n'));
    assert(x.drop_last() =~= m);
    assert(split(x, '\n') == seq![m].push(Seq::<char>::empty()));
    assert(seq![m].push(Seq::<char>::empty()).drop_last() =~= seq![m]);
    assert(seq![m].map_values(|p: Seq<char>| strip_cr(p)) =~= seq![m]);
}

/// The block RatClick builds has the shape removal relies on, whenever the
/// command and the accelerators' keys hold no line break: its first line is
/// the opening marker, its last the closing one, and every line between is a
/// `[layer]` header or a `key = command(...)` mapping.
pub proof fn law_block_has_its_shape(
    layers: Seq<Seq<char>>,
    accels: Seq<(u8, Seq<char>)>,
    command: Seq<char>,
)
    requires
        layer_order(layers, accels),
        no_newline(command),
        forall|k: int| 0 <= k < accels.len() ==> no_newline(#[trigger] accels[k].1),
    ensures
        block_shape(block_spec(layers, accels, command)),
{
    reveal_strlit("# >>> ratclick begin (managed by RatClick — do not edit) >>>");
    reveal_strlit("# <<< ratclick end <<<");
    reveal_strlit("\n");
    assert forall|i: int| 0 <= i < layers.len() implies no_newline(#[trigger] layers[i]) by {
        assert(uses_layer(accels, layers[i]));
        let k = choose|k: int| 0 <= k < accels.len() && layer_name(accels[k].0) == layers[i];
        lemma_layer_name_no_newline(accels[k].0);
    }
    lemma_sections_inner(layers, accels, command);
    let s = layer_sections(layers, accels, command);
    let b = BEGIN@;
    let e = END@;
    assert(no_newline(b)) by {
        if has_char(b, '\n') {
            let i = choose|i: int| 0 <= i < b.len() && b[i] == '\n';
            assert(b[i] != '\n');
        }
    }
    assert(no_newline(e)) by {
        if has_char(e, '\n') {
            let i = choose|i: int| 0 <= i < e.len() && e[i] == '\n';
            assert(e[i] != '\n');
        }
    }
    lemma_marker_line(b);
    lemma_marker_line(e);
    let head = b + "\n"@;
    let tail = e + "\n"@;
    let block = block_spec(layers, accels, command);
    assert(block =~= head + (s + tail));
    lemma_lines_after_newline(head, s + tail);
    if s.len() == 0 {
        assert(s + tail =~= tail);
    } else {
        lemma_lines_after_newline(s, tail);
    }
    let ls = lines(block);
    assert(ls =~= seq![b] + lines(s) + seq![e]);
    assert forall|i: int| 0 < i < ls.len() - 1 implies trim(#[trigger] ls[i]) != END@ by {
        let l = ls[i];
        assert(l == lines(s)[i - 1]);
        assert(inner_line(l));
        if trim(l) == e {
            lemma_trim_keeps_last(l);
            assert(e.last() == '<');
        }
    }
}

proof fn lemma_trim_start_suffix(s: Seq<char>)
    ensures
        exists|k: int| 0 <= k <= s.len() && trim_start(s) == s.subrange(k, s.len() as int),
    decreases s.len(),
{
    if s.len() > 0 && is_ws(s[0]) {
        lemma_trim_start_suffix(s.drop_first());
        let k = choose|k: int|
            0 <= k <= s.drop_first().len() && trim_start(s.drop_first()) == s.drop_first().subrange(
                k,
                s.drop_first().len() as int,
            );
        assert(s.drop_first().subrange(k, s.drop_first().len() as int) =~= s.subrange(
            k + 1,
            s.len() as int,
        ));
    } else {
        assert(s.subrange(0, s.len() as int) =~= s);
    }
}

proof fn lemma_trim_keeps_last(l: Seq<char>)
    requires
        l.len() > 0,
        !is_ws(l.last()),
    ensures
        trim(l).len() > 0,
        trim(l).last() == l.last(),
{
    lemma_trim_start_suffix(l);
    let k = choose|k: int| 0 <= k <= l.len() && trim_start(l) == l.subrange(k, l.len() as int);
    let t = trim_start(l);
    if k == l.len() {
        assert(t.len() == 0);
        lemma_trim_start_stops(l);
    }
    assert(t.len() > 0);
    assert(t.last() == l.last());
}

proof fn lemma_trim_start_stops(s: Seq<char>)
    requires
        s.len() > 0,
        !is_ws(s.last()),
    ensures
        trim_start(s).len() > 0,
    decreases s.len(),
{
    if is_ws(s[0]) {
        assert(s.len() > 1);
        assert(s.drop_first().last() == s.last());
        lemma_trim_start_stops(s.drop_first());
    }
}

/// Uninstalling restores the original bytes, for the block RatClick builds:
/// a config without RatClick's block that has an `[ids]` section comes back
/// unchanged from having the managed block spliced in and stripped out again,
/// whenever the command and the keys hold no line break.
pub proof fn law_uninstall_restores(
    text: Seq<char>,
    layers: Seq<Seq<char>>,
    accels: Seq<(u8, Seq<char>)>,
    command: Seq<char>,
)
    requires
        strip_spec(text) == text,
        has_ids_line(text),
        layer_order(layers, accels),
        no_newline(command),
        forall|k: int| 0 <= k < accels.len() ==> no_newline(#[trigger] accels[k].1),
    ensures
        strip_spec(splice_spec(text, block_spec(layers, accels, command))) == text,
{
    law_block_has_its_shape(layers, accels, command);
    law_strip_undoes_splice(text, block_spec(layers, accels, command));
}


/// Installing again replaces RatClick's block rather than adding another:
/// splicing a new block into a config that already received one of RatClick's
/// blocks gives what splicing it into the original gives. The original may
/// hold an old block already; stripping it once must leave a config with an
/// `[ids]` section that a second stripping keeps as it is (which a line ending
/// in two carriage returns, as in `"x\r\r\n[ids]\n"`, does not).
pub proof fn law_reinstall_replaces(
    text: Seq<char>,
    layers: Seq<Seq<char>>,
    accels: Seq<(u8, Seq<char>)>,
    command: Seq<char>,
    next: Seq<char>,
)
    requires
        strip_spec(strip_spec(text)) == strip_spec(text),
        has_ids_line(strip_spec(text)),
        layer_order(layers, accels),
        no_newline(command),
        forall|k: int| 0 <= k < accels.len() ==> no_newline(#[trigger] accels[k].1),
    ensures
        splice_spec(splice_spec(text, block_spec(layers, accels, command)), next) == splice_spec(
            text,
            next,
        ),
{
    law_block_has_its_shape(layers, accels, command);
    law_splice_replaces(text, block_spec(layers, accels, command), next);
}

// ---------------------------------------------------------------------------
// Reading back what was written
// ---------------------------------------------------------------------------

/// What reading a config gives for one accelerator of RatClick's block: its
/// modifier bits and key, the layer it belongs in, the command it runs, and
/// the mark that the mapping is RatClick's own.
pub open spec fn our_entry(a: (u8, Seq<char>), command: Seq<char>) -> (
    u8,
    Seq<char>,
    Seq<char>,
    Seq<char>,
    bool,
) {
    (a.0, a.1, layer_name(a.0), "command("@ + command + ")"@, true)
}

/// Modifier bits and key exactly as the parser produces them.
pub open spec fn valid_model(a: (u8, Seq<char>)) -> bool {
    a.0 < 16 && canonical_key_spec(a.1) == Some(a.1)
}

pub open spec fn valid_models(accels: Seq<(u8, Seq<char>)>) -> bool {
    forall|k: int| 0 <= k < accels.len() ==> valid_model(#[trigger] accels[k])
}

/// The reader's state after `ls`, starting from `st`.
spec fn read_on(
    st: (Seq<char>, bool, bool, Seq<(u8, Seq<char>, Seq<char>, Seq<char>, bool)>),
    ls: Seq<Seq<char>>,
) -> (Seq<char>, bool, bool, Seq<(u8, Seq<char>, Seq<char>, Seq<char>, bool)>)
    decreases ls.len(),
{
    if ls.len() == 0 {
        st
    } else {
        read_step(read_on(st, ls.drop_last()), ls.last())
    }
}

proof fn lemma_read_lines_on(ls: Seq<Seq<char>>)
    ensures
        read_lines(ls) == read_on(("main"@, false, false, Seq::empty()), ls),
    decreases ls.len(),
{
    if ls.len() > 0 {
        lemma_read_lines_on(ls.drop_last());
    }
}

proof fn lemma_read_on_concat(
    st: (Seq<char>, bool, bool, Seq<(u8, Seq<char>, Seq<char>, Seq<char>, bool)>),
    a: Seq<Seq<char>>,
    b: Seq<Seq<char>>,
)
    ensures
        read_on(st, a + b) == read_on(read_on(st, a), b),
    decreases b.len(),
{
    if b.len() == 0 {
        assert(a + b =~= a);
    } else {
        assert((a + b).drop_last() =~= a + b.drop_last());
        assert((a + b).last() == b.last());
        lemma_read_on_concat(st, a, b.drop_last());
    }
}

proof fn lemma_read_on_one(
    st: (Seq<char>, bool, bool, Seq<(u8, Seq<char>, Seq<char>, Seq<char>, bool)>),
    l: Seq<char>,
)
    ensures
        read_on(st, seq![l]) == read_step(st, l),
{
    assert(seq![l].drop_last() =~= Seq::<Seq<char>>::empty());
    assert(read_on(st, Seq::<Seq<char>>::empty()) == st);
}

/// The reader only ever appends to what it has found.
proof fn lemma_read_on_found(
    st: (Seq<char>, bool, bool, Seq<(u8, Seq<char>, Seq<char>, Seq<char>, bool)>),
    ls: Seq<Seq<char>>,
)
    ensures
        ({
            let r = read_on((st.0, st.1, st.2, Seq::empty()), ls);
            read_on(st, ls) == (r.0, r.1, r.2, st.3 + r.3)
        }),
    decreases ls.len(),
{
    let e = Seq::<(u8, Seq<char>, Seq<char>, Seq<char>, bool)>::empty();
    if ls.len() == 0 {
        assert(st.3 + e =~= st.3);
    } else {
        lemma_read_on_found(st, ls.drop_last());
        let r = read_on((st.0, st.1, st.2, e), ls.drop_last());
        let t = trim(ls.last());
        match mapping_spec(t, r.0) {
            Some(x) => {
                let y = (x.0, x.1, r.0, x.2, r.2);
                assert((st.3 + r.3).push(y) =~= st.3 + r.3.push(y));
            },
            None => {},
        }
    }
}

proof fn lemma_lines_join(x: Seq<char>, y: Seq<char>)
    requires
        x.len() == 0 || x.last() == '\n',
    ensures
        lines(x + y) == lines(x) + lines(y),
{
    if x.len() == 0 {
        lemma_lines_empty();
        assert(x + y =~= y);
        assert(lines(x) + lines(y) =~= lines(y));
    } else {
        lemma_lines_after_newline(x, y);
    }
}

proof fn lemma_concat_lacks(a: Seq<char>, b: Seq<char>, c: char)
    requires
        !has_char(a, c),
        !has_char(b, c),
    ensures
        !has_char(a + b, c),
{
    if has_char(a + b, c) {
        let i = choose|i: int| 0 <= i < (a + b).len() && (a + b)[i] == c;
        if i < a.len() {
            assert(a[i] == c);
        } else {
            assert(b[i - a.len()] == c);
        }
    }
}

proof fn lemma_join_lacks(parts: Seq<Seq<char>>, sep: char, c: char)
    requires
        sep != c,
        forall|i: int| 0 <= i < parts.len() ==> !has_char(#[trigger] parts[i], c),
    ensures
        !has_char(join(parts, seq![sep]), c),
    decreases parts.len(),
{
    if parts.len() == 1 {
        assert(!has_char(parts[0], c));
    } else if parts.len() > 1 {
        assert forall|i: int| 0 <= i < parts.drop_last().len() implies !has_char(
            #[trigger] parts.drop_last()[i],
            c,
        ) by {
            assert(parts.drop_last()[i] == parts[i]);
        }
        lemma_join_lacks(parts.drop_last(), sep, c);
        assert(!has_char(seq![sep], c)) by {
            if has_char(seq![sep], c) {
                let i = choose|i: int| 0 <= i < seq![sep].len() && seq![sep][i] == c;
                assert(seq![sep][i] == sep);
            }
        }
        lemma_concat_lacks(join(parts.drop_last(), seq![sep]), seq![sep], c);
        assert(!has_char(parts[parts.len() - 1], c));
        lemma_concat_lacks(join(parts.drop_last(), seq![sep]) + seq![sep], parts.last(), c);
    } else {
        assert(!has_char(join(parts, seq![sep]), c)) by {
            assert(join(parts, seq![sep]) =~= Seq::<char>::empty());
        }
    }
}

proof fn lemma_split_join(parts: Seq<Seq<char>>, sep: char)
    requires
        parts.len() >= 1,
        forall|i: int| 0 <= i < parts.len() ==> !has_char(#[trigger] parts[i], sep),
    ensures
        split(join(parts, seq![sep]), sep) == parts,
    decreases parts.len(),
{
    if parts.len() == 1 {
        assert(!has_char(parts[0], sep));
        lemma_split_alone(parts[0], sep);
        assert(seq![parts[0]] =~= parts);
    } else {
        let dl = parts.drop_last();
        assert forall|i: int| 0 <= i < dl.len() implies !has_char(#[trigger] dl[i], sep) by {
            assert(dl[i] == parts[i]);
        }
        lemma_split_join(dl, sep);
        let j = join(dl, seq![sep]);
        let x = j + seq![sep];
        assert(x.drop_last() =~= j);
        assert(split(x, sep) == split(j, sep).push(Seq::<char>::empty()));
        assert(split(x, sep).drop_last() =~= dl);
        assert(!has_char(parts[parts.len() - 1], sep));
        lemma_split_alone(parts.last(), sep);
        lemma_split_after(x, parts.last(), sep);
        assert(join(parts, seq![sep]) == x + parts.last());
        assert(dl + seq![parts.last()] =~= parts);
    }
}

/// The names of the modifier layers, spelled out.
proof fn lemma_layer_words()
    ensures
        "main"@ == seq!['m', 'a', 'i', 'n'],
        "ids"@ == seq!['i', 'd', 's'],
        "control"@ == seq!['c', 'o', 'n', 't', 'r', 'o', 'l'],
        "ctrl"@ == seq!['c', 't', 'r', 'l'],
        "C"@ == seq!['C'],
        "shift"@ == seq!['s', 'h', 'i', 'f', 't'],
        "S"@ == seq!['S'],
        "alt"@ == seq!['a', 'l', 't'],
        "A"@ == seq!['A'],
        "meta"@ == seq!['m', 'e', 't', 'a'],
        "super"@ == seq!['s', 'u', 'p', 'e', 'r'],
        "M"@ == seq!['M'],
        "G"@ == seq!['G'],
{
    reveal_strlit("main");
    reveal_strlit("ids");
    reveal_strlit("control");
    reveal_strlit("ctrl");
    reveal_strlit("C");
    reveal_strlit("shift");
    reveal_strlit("S");
    reveal_strlit("alt");
    reveal_strlit("A");
    reveal_strlit("meta");
    reveal_strlit("super");
    reveal_strlit("M");
    reveal_strlit("G");
}

/// A word of the layer names: no separator, no colon, no line break, and not
/// one of the words a layer name is compared against.
spec fn layer_word(w: Seq<char>) -> bool {
    w == "control"@ || w == "alt"@ || w == "shift"@ || w == "meta"@
}

proof fn lemma_layer_word(w: Seq<char>)
    requires
        layer_word(w),
    ensures
        !has_char(w, '+'),
        !has_char(w, ':'),
        w != "main"@,
        w != "ids"@,
        layer_part_spec(w) == Some(
            if w == "control"@ {
                CONTROL_BIT
            } else if w == "alt"@ {
                ALT_BIT
            } else if w == "shift"@ {
                SHIFT_BIT
            } else {
                SUPER_BIT
            },
        ),
{
    lemma_layer_words();
    assert(trim_start(w) == w);
    assert(trim_end(w) == w);
    assert(trim(w) == w);
    if w == "meta"@ {
        assert(w[1] != "main"@[1]);
        assert(w[0] != "ctrl"@[0]);
    }
    if w == "alt"@ {
        assert(w[0] != "ids"@[0]);
    }
    if w == "shift"@ {
        assert(w[1] != "super"@[1]);
    }
}

/// Reading a layer name RatClick writes gives back the modifier bits it was
/// written for; the name is never `ids` and holds no colon.
proof fn lemma_layer_name_reads(m: u8)
    requires
        m < 16,
    ensures
        modifiers_from_layer_spec(layer_name(m)) == Some(m),
        layer_name(m) != "ids"@,
        !has_char(layer_name(m), ':'),
{
    lemma_layer_words();
    let bc: u8 = if m & CONTROL_BIT == CONTROL_BIT { CONTROL_BIT } else { 0 };
    let ba: u8 = if m & ALT_BIT == ALT_BIT { ALT_BIT } else { 0 };
    let bs: u8 = if m & SHIFT_BIT == SHIFT_BIT { SHIFT_BIT } else { 0 };
    let bu: u8 = if m & SUPER_BIT == SUPER_BIT { SUPER_BIT } else { 0 };
    lemma_bits_rebuild(m, bc, ba, bs, bu);
    assert(forall|x: u8| #[trigger] (x | 0u8) == x) by (bit_vector);
    let a: Seq<Seq<char>> = if m & CONTROL_BIT == CONTROL_BIT {
        seq!["control"@]
    } else {
        Seq::empty()
    };
    let b = if m & ALT_BIT == ALT_BIT {
        a.push("alt"@)
    } else {
        a
    };
    let c = if m & SHIFT_BIT == SHIFT_BIT {
        b.push("shift"@)
    } else {
        b
    };
    let parts = layer_parts(m);
    assert(parts == (if m & SUPER_BIT == SUPER_BIT {
        c.push("meta"@)
    } else {
        c
    }));
    lemma_layer_word("control"@);
    lemma_layer_word("alt"@);
    lemma_layer_word("shift"@);
    lemma_layer_word("meta"@);
    assert(layer_fold(Seq::<Seq<char>>::empty()) == Some(0u8));
    assert(layer_fold(a) == Some(0u8 | bc)) by {
        if m & CONTROL_BIT == CONTROL_BIT {
            assert(a.drop_last() =~= Seq::<Seq<char>>::empty());
        }
    }
    assert(layer_fold(b) == Some((0u8 | bc) | ba)) by {
        if m & ALT_BIT == ALT_BIT {
            assert(b.drop_last() =~= a);
        }
    }
    assert(layer_fold(c) == Some(((0u8 | bc) | ba) | bs)) by {
        if m & SHIFT_BIT == SHIFT_BIT {
            assert(c.drop_last() =~= b);
        }
    }
    assert(layer_fold(parts) == Some(m)) by {
        if m & SUPER_BIT == SUPER_BIT {
            assert(parts.drop_last() =~= c);
        }
    }
    assert forall|i: int| 0 <= i < parts.len() implies layer_word(#[trigger] parts[i]) by {
        if m & SUPER_BIT == SUPER_BIT && i == parts.len() - 1 {
        } else if m & SHIFT_BIT == SHIFT_BIT && i == c.len() - 1 {
            assert(parts[i] == c[i]);
        } else if m & ALT_BIT == ALT_BIT && i == b.len() - 1 {
            assert(parts[i] == c[i]);
            assert(c[i] == b[i]);
        } else {
            assert(parts[i] == c[i]);
            assert(c[i] == b[i]);
            assert(b[i] == a[i]);
        }
    }
    if parts.len() == 0 {
        assert(layer_name(m) == "main"@);
        assert(m == 0);
        assert(!has_char("main"@, ':'));
    } else {
        let l = join(parts, seq!['+']);
        assert(layer_name(m) == l);
        assert forall|i: int| 0 <= i < parts.len() implies !has_char(#[trigger] parts[i], '+') by {
            lemma_layer_word(parts[i]);
        }
        assert forall|i: int| 0 <= i < parts.len() implies !has_char(#[trigger] parts[i], ':') by {
            lemma_layer_word(parts[i]);
        }
        lemma_split_join(parts, '+');
        lemma_join_lacks(parts, '+', ':');
        lemma_layer_word(parts[0]);
        if l == "main"@ {
            assert(!has_char("main"@, '+'));
            lemma_split_alone("main"@, '+');
            assert(parts[0] == "main"@);
        }
        if l == "ids"@ {
            assert(!has_char("ids"@, '+'));
            lemma_split_alone("ids"@, '+');
            assert(parts[0] == "ids"@);
        }
    }
}

proof fn lemma_valid_keys(accels: Seq<(u8, Seq<char>)>)
    requires
        valid_models(accels),
    ensures
        forall|k: int| 0 <= k < accels.len() ==> no_newline(#[trigger] accels[k].1),
{
    assert forall|k: int| 0 <= k < accels.len() implies no_newline(#[trigger] accels[k].1) by {
        assert(valid_model(accels[k]));
        lemma_key_alone(accels[k].1);
        lemma_key_alnum(accels[k].1);
        let key = accels[k].1;
        if has_char(key, '\n') {
            let i = choose|i: int| 0 <= i < key.len() && key[i] == '\n';
            assert(is_alnum(key[i]));
        }
    }
}

proof fn lemma_marker_words()
    ensures
        BEGIN@.len() > 0,
        BEGIN@[0] == '#',
        END@.len() > 0,
        END@[0] == '#',
        "command("@ == seq!['c', 'o', 'm', 'm', 'a', 'n', 'd', '('],
        " = command("@ == seq![' ', '=', ' '] + "command("@,
        ")"@ == seq![')'],
        "]"@ == seq![']'],
        "["@ == seq!['['],
        "\n"@ == seq!['\n'],
        ")\n"@ == seq![')', '\n'],
        "]\n"@ == seq![']', '\n'],
{
    reveal_strlit("# >>> ratclick begin (managed by RatClick — do not edit) >>>");
    reveal_strlit("# <<< ratclick end <<<");
    reveal_strlit("command(");
    reveal_strlit(" = command(");
    reveal_strlit(")");
    reveal_strlit("]");
    reveal_strlit("[");
    reveal_strlit("\n");
    reveal_strlit(")\n");
    reveal_strlit("]\n");
}

/// One mapping line of the block, read in its accelerator's layer, adds that
/// accelerator as RatClick's own and changes nothing else.
proof fn lemma_mapping_line(
    a: (u8, Seq<char>),
    command: Seq<char>,
    in_ours: Seq<(u8, Seq<char>, Seq<char>, Seq<char>, bool)>,
)
    requires
        valid_model(a),
        no_newline(command),
    ensures
        ({
            let l = a.1 + " = command("@ + command + ")"@;
            let lay = layer_name(a.0);
            &&& lines(command_line(a.1, command)) == seq![l]
            &&& read_step((lay, false, true, in_ours), l) == (lay, false, true, in_ours.push(
                our_entry(a, command),
            ))
        }),
{
    lemma_marker_words();
    let k = a.1;
    let n: int = k.len() as int;
    lemma_key_alone(k);
    lemma_key_alnum(k);
    lemma_layer_name_reads(a.0);
    let act = "command("@ + command + ")"@;
    let l = k + " = command("@ + command + ")"@;
    let lay = layer_name(a.0);
    assert(l =~= k + (seq![' ', '=', ' '] + act));
    assert(l[0] == k[0]);
    assert(is_alnum(k[0]));
    assert(l.last() == ')');
    // the line is its own trim
    assert(trim_start(l) == l);
    assert(trim_end(l) == l);
    assert(trim(l) == l);
    // no line break inside
    assert(no_newline(l)) by {
        if has_char(l, '\n') {
            let i = choose|i: int| 0 <= i < l.len() && l[i] == '\n';
            if i < n {
                assert(is_alnum(k[i]));
            } else if i < n + 3 {
            } else if i < l.len() - 1 {
                assert(l[i] == command[i - n - 3 - 8]);
            }
        }
    }
    assert(inner_line(l));
    lemma_one_line(l);
    assert(command_line(k, command) =~= l + "\n"@);
    // not a marker, comment or header
    assert(l != BEGIN@) by {
        assert(l[0] != BEGIN@[0]);
    }
    assert(l != END@) by {
        assert(l[0] != END@[0]);
    }
    assert(header_spec(l) is None);
    // the key ends at the first '='
    assert forall|j: int| 0 <= j < n + 1 implies l[j] != '=' by {
        if j < n {
            assert(l[j] == k[j]);
            assert(is_alnum(k[j]));
        }
    }
    lemma_first_index(l, '=', n + 1);
    let lhs = l.subrange(0, n + 1);
    assert(lhs =~= k.push(' '));
    assert(trim_start(lhs) == lhs);
    assert(lhs.drop_last() =~= k);
    assert(is_alnum(k[n - 1]));
    assert(trim_end(k) == k);
    assert(trim_end(lhs) == trim_end(k));
    assert(trim(lhs) == k);
    let rhs = l.subrange(n + 2, l.len() as int);
    assert(rhs =~= seq![' '] + act);
    assert(rhs.drop_first() =~= act);
    assert(trim_start(rhs) == trim_start(act));
    assert(trim_start(act) == act);
    assert(trim_end(act) == act);
    assert(trim(rhs) == act);
    assert(mapping_spec(l, lay) == Some((a.0, k, act)));
}

/// A `[layer]` header line switches to that layer and out of `[ids]`.
proof fn lemma_header_line(
    lay: Seq<char>,
    st: (Seq<char>, bool, bool, Seq<(u8, Seq<char>, Seq<char>, Seq<char>, bool)>),
)
    requires
        !has_char(lay, ':'),
        lay != "ids"@,
    ensures
        read_step(st, "["@ + lay + "]"@) == (lay, false, st.2, st.3),
{
    lemma_marker_words();
    let h = "["@ + lay + "]"@;
    assert(h[0] == '[');
    assert(h.last() == ']');
    assert(trim_start(h) == h);
    assert(trim_end(h) == h);
    assert(h != BEGIN@) by {
        assert(h[0] != BEGIN@[0]);
    }
    assert(h != END@) by {
        assert(h[0] != END@[0]);
    }
    assert(h.subrange(1, h.len() - 1) =~= lay);
    assert(header_spec(h) == Some(lay));
    assert forall|j: int| 0 <= j < lay.len() implies lay[j] != ':' by {
        if lay[j] == ':' {
            assert(has_char(lay, ':'));
        }
    }
    lemma_first_index_none(lay, ':');
    assert(layer_of_section(lay) == lay);
}

/// The entries read from the mapping lines of `layer`.
spec fn body_found(accels: Seq<(u8, Seq<char>)>, layer: Seq<char>, command: Seq<char>) -> Seq<
    (u8, Seq<char>, Seq<char>, Seq<char>, bool),
>
    decreases accels.len(),
{
    if accels.len() == 0 {
        Seq::empty()
    } else {
        body_found(accels.drop_last(), layer, command) + (if layer_name(accels.last().0)
            == layer {
            seq![our_entry(accels.last(), command)]
        } else {
            Seq::empty()
        })
    }
}

/// The entries read from the sections of `layers`, in order.
spec fn sections_found(
    layers: Seq<Seq<char>>,
    accels: Seq<(u8, Seq<char>)>,
    command: Seq<char>,
) -> Seq<(u8, Seq<char>, Seq<char>, Seq<char>, bool)>
    decreases layers.len(),
{
    if layers.len() == 0 {
        Seq::empty()
    } else {
        sections_found(layers.drop_last(), accels, command) + body_found(
            accels,
            layers.last(),
            command,
        )
    }
}

proof fn lemma_body_read(
    accels: Seq<(u8, Seq<char>)>,
    layer: Seq<char>,
    command: Seq<char>,
    f: Seq<(u8, Seq<char>, Seq<char>, Seq<char>, bool)>,
)
    requires
        valid_models(accels),
        no_newline(command),
    ensures
        read_on((layer, false, true, f), lines(layer_body(accels, layer, command))) == (
            layer,
            false,
            true,
            f + body_found(accels, layer, command),
        ),
    decreases accels.len(),
{
    if accels.len() == 0 {
        lemma_lines_empty();
        assert(f + body_found(accels, layer, command) =~= f);
    } else {
        let dl = accels.drop_last();
        let a = accels.last();
        assert forall|k: int| 0 <= k < dl.len() implies valid_model(#[trigger] dl[k]) by {
            assert(dl[k] == accels[k]);
        }
        assert(valid_model(accels[accels.len() - 1]));
        lemma_body_read(dl, layer, command, f);
        lemma_valid_keys(dl);
        lemma_body_inner(dl, layer, command);
        let prev = layer_body(dl, layer, command);
        let tail = if layer_name(a.0) == layer {
            command_line(a.1, command)
        } else {
            Seq::empty()
        };
        assert(layer_body(accels, layer, command) == prev + tail);
        lemma_lines_join(prev, tail);
        let st0 = (layer, false, true, f);
        lemma_read_on_concat(st0, lines(prev), lines(tail));
        let f1 = f + body_found(dl, layer, command);
        if layer_name(a.0) == layer {
            lemma_mapping_line(a, command, f1);
            let l = a.1 + " = command("@ + command + ")"@;
            lemma_read_on_one((layer, false, true, f1), l);
            assert(f1.push(our_entry(a, command)) =~= f + body_found(accels, layer, command));
        } else {
            lemma_lines_empty();
            assert(read_on((layer, false, true, f1), lines(tail)) == (layer, false, true, f1));
            assert(f1 =~= f + body_found(accels, layer, command));
        }
    }
}

proof fn lemma_sections_read(
    layers: Seq<Seq<char>>,
    accels: Seq<(u8, Seq<char>)>,
    command: Seq<char>,
    st: (Seq<char>, bool, bool, Seq<(u8, Seq<char>, Seq<char>, Seq<char>, bool)>),
)
    requires
        valid_models(accels),
        no_newline(command),
        st.2,
        forall|i: int| 0 <= i < layers.len() ==> uses_layer(accels, #[trigger] layers[i]),
    ensures
        read_on(st, lines(layer_sections(layers, accels, command))) == (if layers.len() == 0 {
            st
        } else {
            (layers.last(), false, true, st.3 + sections_found(layers, accels, command))
        }),
    decreases layers.len(),
{
    lemma_marker_words();
    if layers.len() == 0 {
        lemma_lines_empty();
    } else {
        let dl = layers.drop_last();
        let lay = layers.last();
        assert forall|i: int| 0 <= i < dl.len() implies uses_layer(accels, #[trigger] dl[i]) by {
            assert(dl[i] == layers[i]);
        }
        lemma_sections_read(dl, accels, command, st);
        assert forall|i: int| 0 <= i < dl.len() implies no_newline(#[trigger] dl[i]) by {
            assert(uses_layer(accels, dl[i]));
            let k = choose|k: int| 0 <= k < accels.len() && layer_name(accels[k].0) == dl[i];
            lemma_layer_name_no_newline(accels[k].0);
        }
        lemma_valid_keys(accels);
        lemma_sections_inner(dl, accels, command);
        let prev = layer_sections(dl, accels, command);
        let h = "["@ + lay + "]"@;
        let head = "["@ + lay + "]\n"@;
        let body = layer_body(accels, lay, command);
        assert(layer_sections(layers, accels, command) =~= prev + (head + body));
        assert(head =~= h + "\n"@);
        assert(uses_layer(accels, layers[layers.len() - 1]));
        let k = choose|k: int| 0 <= k < accels.len() && layer_name(accels[k].0) == lay;
        assert(valid_model(accels[k]));
        lemma_layer_name_reads(accels[k].0);
        lemma_layer_name_no_newline(accels[k].0);
        assert(no_newline(h)) by {
            lemma_no_newline_concat("["@, lay);
            lemma_no_newline_concat("["@ + lay, "]"@);
        }
        lemma_one_line(h);
        lemma_lines_join(prev, head + body);
        lemma_lines_join(head, body);
        lemma_read_on_concat(st, lines(prev), lines(head) + lines(body));
        let st1 = read_on(st, lines(prev));
        lemma_read_on_concat(st1, lines(head), lines(body));
        lemma_read_on_one(st1, h);
        lemma_header_line(lay, st1);
        let f1 = st1.3;
        assert(f1 == st.3 + sections_found(dl, accels, command)) by {
            if dl.len() == 0 {
                assert(st.3 + sections_found(dl, accels, command) =~= st.3);
            }
        }
        lemma_body_read(accels, lay, command, f1);
        assert(f1 + body_found(accels, lay, command) =~= st.3 + sections_found(
            layers,
            accels,
            command,
        ));
    }
}

proof fn lemma_block_read(
    layers: Seq<Seq<char>>,
    accels: Seq<(u8, Seq<char>)>,
    command: Seq<char>,
    st: (Seq<char>, bool, bool, Seq<(u8, Seq<char>, Seq<char>, Seq<char>, bool)>),
)
    requires
        layer_order(layers, accels),
        valid_models(accels),
        no_newline(command),
    ensures
        read_on(st, lines(block_spec(layers, accels, command))).3 == st.3 + sections_found(
            layers,
            accels,
            command,
        ),
{
    lemma_marker_words();
    lemma_markers_differ();
    lemma_valid_keys(accels);
    assert forall|i: int| 0 <= i < layers.len() implies no_newline(#[trigger] layers[i]) by {
        assert(uses_layer(accels, layers[i]));
        let k = choose|k: int| 0 <= k < accels.len() && layer_name(accels[k].0) == layers[i];
        lemma_layer_name_no_newline(accels[k].0);
    }
    lemma_sections_inner(layers, accels, command);
    let s = layer_sections(layers, accels, command);
    let b = BEGIN@;
    let e = END@;
    law_block_has_its_shape(layers, accels, command);
    assert(no_newline(b)) by {
        reveal_strlit("# >>> ratclick begin (managed by RatClick — do not edit) >>>");
        if has_char(b, '\n') {
            let i = choose|i: int| 0 <= i < b.len() && b[i] == '\n';
            assert(b[i] != '\n');
        }
    }
    assert(no_newline(e)) by {
        reveal_strlit("# <<< ratclick end <<<");
        if has_char(e, '\n') {
            let i = choose|i: int| 0 <= i < e.len() && e[i] == '\n';
            assert(e[i] != '\n');
        }
    }
    assert(!is_ws(b[0]) && !is_ws(e[0]));
    assert(!is_ws(b.last()) && !is_ws(e.last())) by {
        reveal_strlit("# >>> ratclick begin (managed by RatClick — do not edit) >>>");
        reveal_strlit("# <<< ratclick end <<<");
    }
    assert(b.last() != '\r' && e.last() != '\r') by {
        reveal_strlit("# >>> ratclick begin (managed by RatClick — do not edit) >>>");
        reveal_strlit("# <<< ratclick end <<<");
    }
    lemma_marker_line(b);
    lemma_marker_line(e);
    let head = b + "\n"@;
    let tail = e + "\n"@;
    let block = block_spec(layers, accels, command);
    assert(block =~= head + (s + tail));
    lemma_lines_after_newline(head, s + tail);
    lemma_lines_join(s, tail);
    let ls = lines(block);
    assert(ls =~= seq![b] + (lines(s) + seq![e]));
    lemma_read_on_concat(st, seq![b], lines(s) + seq![e]);
    lemma_read_on_one(st, b);
    let st1 = (st.0, st.1, true, st.3);
    assert(read_step(st, b) == st1);
    lemma_read_on_concat(st1, lines(s), seq![e]);
    assert forall|i: int| 0 <= i < layers.len() implies uses_layer(accels, #[trigger] layers[i]) by {}
    lemma_sections_read(layers, accels, command, st1);
    let st2 = read_on(st1, lines(s));
    lemma_read_on_one(st2, e);
    assert(read_step(st2, e).3 == st2.3);
    if layers.len() == 0 {
        assert(st.3 + sections_found(layers, accels, command) =~= st.3);
    }
}

proof fn lemma_body_has(
    accels: Seq<(u8, Seq<char>)>,
    layer: Seq<char>,
    command: Seq<char>,
    k: int,
)
    requires
        0 <= k < accels.len(),
        layer_name(accels[k].0) == layer,
    ensures
        body_found(accels, layer, command).contains(our_entry(accels[k], command)),
    decreases accels.len(),
{
    let dl = accels.drop_last();
    let prev = body_found(dl, layer, command);
    if k == accels.len() - 1 {
        assert(body_found(accels, layer, command)[prev.len() as int] == our_entry(
            accels[k],
            command,
        ));
    } else {
        assert(dl[k] == accels[k]);
        lemma_body_has(dl, layer, command, k);
        let i = choose|i: int| 0 <= i < prev.len() && prev[i] == our_entry(accels[k], command);
        assert(body_found(accels, layer, command)[i] == prev[i]);
    }
}

proof fn lemma_body_from(
    accels: Seq<(u8, Seq<char>)>,
    layer: Seq<char>,
    command: Seq<char>,
    i: int,
)
    requires
        0 <= i < body_found(accels, layer, command).len(),
    ensures
        exists|k: int|
            0 <= k < accels.len() && body_found(accels, layer, command)[i] == our_entry(
                #[trigger] accels[k],
                command,
            ),
    decreases accels.len(),
{
    let dl = accels.drop_last();
    let prev = body_found(dl, layer, command);
    if i < prev.len() {
        lemma_body_from(dl, layer, command, i);
        let k = choose|k: int| 0 <= k < dl.len() && prev[i] == our_entry(#[trigger] dl[k], command);
        assert(dl[k] == accels[k]);
        assert(body_found(accels, layer, command)[i] == prev[i]);
    } else {
        let k = accels.len() - 1;
        assert(body_found(accels, layer, command)[i] == our_entry(accels[k], command));
    }
}

proof fn lemma_sections_has(
    layers: Seq<Seq<char>>,
    accels: Seq<(u8, Seq<char>)>,
    command: Seq<char>,
    j: int,
    x: (u8, Seq<char>, Seq<char>, Seq<char>, bool),
)
    requires
        0 <= j < layers.len(),
        body_found(accels, layers[j], command).contains(x),
    ensures
        sections_found(layers, accels, command).contains(x),
    decreases layers.len(),
{
    let dl = layers.drop_last();
    let prev = sections_found(dl, accels, command);
    let whole = sections_found(layers, accels, command);
    if j == layers.len() - 1 {
        let body = body_found(accels, layers[j], command);
        let i = choose|i: int| 0 <= i < body.len() && body[i] == x;
        assert(whole[prev.len() + i] == body[i]);
    } else {
        assert(dl[j] == layers[j]);
        lemma_sections_has(dl, accels, command, j, x);
        let i = choose|i: int| 0 <= i < prev.len() && prev[i] == x;
        assert(whole[i] == prev[i]);
    }
}

proof fn lemma_sections_from(
    layers: Seq<Seq<char>>,
    accels: Seq<(u8, Seq<char>)>,
    command: Seq<char>,
    i: int,
)
    requires
        0 <= i < sections_found(layers, accels, command).len(),
    ensures
        exists|k: int|
            0 <= k < accels.len() && sections_found(layers, accels, command)[i] == our_entry(
                #[trigger] accels[k],
                command,
            ),
    decreases layers.len(),
{
    let dl = layers.drop_last();
    let prev = sections_found(dl, accels, command);
    let whole = sections_found(layers, accels, command);
    if i < prev.len() {
        lemma_sections_from(dl, accels, command, i);
        assert(whole[i] == prev[i]);
    } else {
        let body = body_found(accels, layers.last(), command);
        lemma_body_from(accels, layers.last(), command, i - prev.len());
        assert(whole[i] == body[i - prev.len()]);
    }
}

/// Every accelerator of the block is among the entries read from it, and
/// every entry read is one of its accelerators.
proof fn lemma_sections_exact(
    layers: Seq<Seq<char>>,
    accels: Seq<(u8, Seq<char>)>,
    command: Seq<char>,
)
    requires
        layer_order(layers, accels),
    ensures
        forall|k: int|
            0 <= k < accels.len() ==> sections_found(layers, accels, command).contains(
                our_entry(#[trigger] accels[k], command),
            ),
        forall|i: int|
            0 <= i < sections_found(layers, accels, command).len() ==> exists|k: int|
                0 <= k < accels.len() && #[trigger] sections_found(layers, accels, command)[i]
                    == our_entry(accels[k], command),
{
    assert forall|k: int| 0 <= k < accels.len() implies sections_found(
        layers,
        accels,
        command,
    ).contains(our_entry(#[trigger] accels[k], command)) by {
        assert(layers.contains(layer_name(accels[k].0)));
        let j = choose|j: int| 0 <= j < layers.len() && layers[j] == layer_name(accels[k].0);
        lemma_body_has(accels, layers[j], command, k);
        lemma_sections_has(layers, accels, command, j, our_entry(accels[k], command));
    }
    assert forall|i: int| 0 <= i < sections_found(layers, accels, command).len() implies exists|
        k: int,
    |
        0 <= k < accels.len() && #[trigger] sections_found(layers, accels, command)[i]
            == our_entry(accels[k], command) by {
        lemma_sections_from(layers, accels, command, i);
    }
}

/// Reading back the block RatClick builds gives exactly its accelerators:
/// every mapping read from it is one of them, bound in its own layer to the
/// command and marked as RatClick's, and each of them is read.
pub proof fn law_block_reads_back(
    layers: Seq<Seq<char>>,
    accels: Seq<(u8, Seq<char>)>,
    command: Seq<char>,
)
    requires
        layer_order(layers, accels),
        valid_models(accels),
        no_newline(command),
    ensures
        forall|k: int|
            0 <= k < accels.len() ==> parse_config_spec(block_spec(layers, accels, command)).contains(
                our_entry(#[trigger] accels[k], command),
            ),
        forall|i: int|
            0 <= i < parse_config_spec(block_spec(layers, accels, command)).len() ==> exists|k: int|
                0 <= k < accels.len() && #[trigger] parse_config_spec(
                    block_spec(layers, accels, command),
                )[i] == our_entry(accels[k], command),
{
    let block = block_spec(layers, accels, command);
    let init = ("main"@, false, false, Seq::<(u8, Seq<char>, Seq<char>, Seq<char>, bool)>::empty());
    lemma_read_lines_on(lines(block));
    lemma_block_read(layers, accels, command, init);
    assert(parse_config_spec(block) =~= sections_found(layers, accels, command));
    lemma_sections_exact(layers, accels, command);
}

proof fn lemma_installed_has(found: Seq<Binding>, j: int)
    requires
        0 <= j < found.len(),
        found[j].ours,
    ensures
        installed_spec(found).contains(model(found[j].accel)),
    decreases found.len(),
{
    let dl = found.drop_last();
    let seen = installed_spec(dl);
    let x = model(found[j].accel);
    let y = model(found.last().accel);
    if j == found.len() - 1 {
        if !seen.contains(x) {
            assert(seen.push(x)[seen.len() as int] == x);
        }
    } else {
        assert(dl[j] == found[j]);
        lemma_installed_has(dl, j);
        let i = choose|i: int| 0 <= i < seen.len() && seen[i] == x;
        assert(seen.push(y)[i] == x);
    }
}

/// Installing and reading the config again finds every accelerator RatClick
/// installed as its own: the mappings read from the updated config end with
/// exactly those of the block, and the accelerators reported installed
/// include each of them.
pub proof fn law_update_reads_back(
    text: Seq<char>,
    layers: Seq<Seq<char>>,
    accels: Seq<(u8, Seq<char>)>,
    command: Seq<char>,
    found: Seq<Binding>,
)
    requires
        layer_order(layers, accels),
        valid_models(accels),
        no_newline(command),
        entries(found) == parse_config_spec(splice_spec(text, block_spec(layers, accels, command))),
    ensures
        ({
            let all = parse_config_spec(splice_spec(text, block_spec(layers, accels, command)));
            let own = parse_config_spec(block_spec(layers, accels, command));
            &&& all.len() >= own.len()
            &&& all.subrange(all.len() - own.len(), all.len() as int) == own
        }),
        forall|k: int| 0 <= k < accels.len() ==> installed_spec(found).contains(#[trigger] accels[k]),
{
    let block = block_spec(layers, accels, command);
    let init = ("main"@, false, false, Seq::<(u8, Seq<char>, Seq<char>, Seq<char>, bool)>::empty());
    let c = strip_spec(text);
    let a = if c.len() > 0 && c.last() != '\n' {
        c.push('\n')
    } else {
        c
    };
    let b = if has_ids_line(c) {
        a
    } else {
        a + "[ids]\n*\n"@
    };
    let p = b + "\n"@;
    reveal_strlit("\n");
    assert(splice_spec(text, block) == p + block);
    assert(p.len() > 0 && p.last() == '\n');
    lemma_lines_after_newline(p, block);
    lemma_read_lines_on(lines(p) + lines(block));
    lemma_read_on_concat(init, lines(p), lines(block));
    let st = read_on(init, lines(p));
    lemma_block_read(layers, accels, command, st);
    lemma_read_lines_on(lines(block));
    lemma_block_read(layers, accels, command, init);
    let sf = sections_found(layers, accels, command);
    let all = parse_config_spec(splice_spec(text, block));
    assert(parse_config_spec(block) =~= sf);
    assert(all == st.3 + sf);
    assert(all.subrange(all.len() - sf.len(), all.len() as int) =~= sf);
    lemma_sections_exact(layers, accels, command);
    assert forall|k: int| 0 <= k < accels.len() implies installed_spec(found).contains(
        #[trigger] accels[k],
    ) by {
        assert(sf.contains(our_entry(accels[k], command)));
        let i = choose|i: int| 0 <= i < sf.len() && sf[i] == our_entry(accels[k], command);
        let j = st.3.len() + i;
        assert(all[j] == sf[i]);
        assert(entries(found)[j] == entry(found[j]));
        assert(found[j].ours);
        assert(model(found[j].accel) == accels[k]);
        lemma_installed_has(found, j);
    }
}


/// The keyd layer an accelerator is written to reads back as its modifiers:
/// `modifiers_from_keyd_layer` undoes `to_keyd_layer` (with `main` for none).
pub proof fn law_layer_reads_back(m: u8)
    requires
        m < 16,
    ensures
        modifiers_from_layer_spec(layer_name(m)) == Some(m),
{
    lemma_layer_name_reads(m);
}

proof fn lemma_fold_refuses(parts: Seq<Seq<char>>, i: int)
    requires
        0 <= i < parts.len(),
        layer_part_spec(parts[i]) is None,
    ensures
        layer_fold(parts) is None,
    decreases parts.len(),
{
    if i < parts.len() - 1 {
        assert(parts.drop_last()[i] == parts[i]);
        lemma_fold_refuses(parts.drop_last(), i);
    }
}

/// A layer with any part that is not a modifier layer, such as `nav` or
/// `control+nav`, gives no modifiers: it is reachable only while another key
/// is held.
pub proof fn law_foreign_layer_refused(layer: Seq<char>, i: int)
    requires
        layer != "main"@,
        0 <= i < split(layer, '+').len(),
        layer_part_spec(split(layer, '+')[i]) is None,
    ensures
        modifiers_from_layer_spec(layer) is None,
{
    lemma_fold_refuses(split(layer, '+'), i);
}


// ---------------------------------------------------------------------------
// Clean configs
// ---------------------------------------------------------------------------

proof fn lemma_join_split(s: Seq<char>, c: char)
    ensures
        join(split(s, c), seq![c]) == s,
    decreases s.len(),
{
    if s.len() == 0 {
        assert(s =~= Seq::<char>::empty());
        assert(split(s, c) =~= seq![Seq::<char>::empty()]);
        assert(join(split(s, c), seq![c]) == split(s, c)[0]);
    } else {
        let dl = s.drop_last();
        lemma_join_split(dl, c);
        lemma_split_nonempty(dl, c);
        let p = split(dl, c);
        if s.last() == c {
            let q = p.push(Seq::<char>::empty());
            assert(q.drop_last() =~= p);
            assert(join(q, seq![c]) == join(p, seq![c]) + seq![c] + Seq::<char>::empty());
            assert(dl + seq![c] + Seq::<char>::empty() =~= s);
        } else {
            let x = s.last();
            let q = p.update(p.len() - 1, p.last().push(x));
            if p.len() == 1 {
                assert(join(p, seq![c]) == p[0]);
                assert(q.len() == 1);
                assert(join(q, seq![c]) == q[0]);
                assert(q[0] =~= dl.push(x));
            } else {
                assert(q.drop_last() =~= p.drop_last());
                assert(join(q, seq![c]) == join(p.drop_last(), seq![c]) + seq![c] + p.last().push(x));
                assert(join(p, seq![c]) == join(p.drop_last(), seq![c]) + seq![c] + p.last());
            }
            assert(dl.push(x) =~= s);
            assert(join(p.drop_last(), seq![c]) + seq![c] + p.last().push(x) =~= (join(
                p.drop_last(),
                seq![c],
            ) + seq![c] + p.last()).push(x));
        }
    }
}

proof fn lemma_split_lacks(s: Seq<char>, c: char, d: char)
    requires
        !has_char(s, d),
    ensures
        forall|i: int| 0 <= i < split(s, c).len() ==> !has_char(#[trigger] split(s, c)[i], d),
    decreases s.len(),
{
    if s.len() > 0 {
        let dl = s.drop_last();
        assert(!has_char(dl, d)) by {
            if has_char(dl, d) {
                let k = choose|k: int| 0 <= k < dl.len() && dl[k] == d;
                assert(s[k] == d);
            }
        }
        lemma_split_lacks(dl, c, d);
        lemma_split_nonempty(dl, c);
        let p = split(dl, c);
        if s.last() != c {
            assert(s.last() != d);
            let v = p.last().push(s.last());
            assert(!has_char(p[p.len() - 1], d));
            assert(!has_char(v, d)) by {
                if has_char(v, d) {
                    let k = choose|k: int| 0 <= k < v.len() && v[k] == d;
                    if k < v.len() - 1 {
                        assert(p.last()[k] == d);
                    }
                }
            }
        } else {
            assert(!has_char(Seq::<char>::empty(), d));
        }
    }
}

/// The lines, each with its line break back.
pub open spec fn with_newlines(ls: Seq<Seq<char>>) -> Seq<char>
    decreases ls.len(),
{
    if ls.len() == 0 {
        Seq::empty()
    } else {
        with_newlines(ls.drop_last()) + ls.last() + seq!['\n']
    }
}

proof fn lemma_with_newlines_join(ls: Seq<Seq<char>>)
    requires
        ls.len() > 0,
    ensures
        with_newlines(ls) == join(ls, seq!['\n']) + seq!['\n'],
    decreases ls.len(),
{
    let dl = ls.drop_last();
    if ls.len() == 1 {
        assert(dl =~= Seq::<Seq<char>>::empty());
        assert(with_newlines(dl) == Seq::<char>::empty());
        assert(join(ls, seq!['\n']) == ls[0]);
        assert(Seq::<char>::empty() + ls.last() + seq!['\n'] =~= ls[0] + seq!['\n']);
    } else {
        lemma_with_newlines_join(dl);
        assert(join(ls, seq!['\n']) == join(dl, seq!['\n']) + seq!['\n'] + ls.last());
        assert(join(dl, seq!['\n']) + seq!['\n'] + ls.last() + seq!['\n'] =~= with_newlines(dl)
            + ls.last() + seq!['\n']);
    }
}

proof fn lemma_keep_plain(acc: Seq<char>, ls: Seq<Seq<char>>)
    requires
        forall|i: int| 0 <= i < ls.len() ==> trim(#[trigger] ls[i]) != BEGIN@ && trim(ls[i]) != END@,
    ensures
        keep_lines((false, acc), ls) == (false, acc + with_newlines(ls)),
    decreases ls.len(),
{
    reveal_strlit("\n");
    if ls.len() == 0 {
        assert(acc + Seq::<char>::empty() =~= acc);
    } else {
        assert forall|i: int| 0 <= i < ls.drop_last().len() implies trim(
            #[trigger] ls.drop_last()[i],
        ) != BEGIN@ && trim(ls.drop_last()[i]) != END@ by {
            assert(ls.drop_last()[i] == ls[i]);
        }
        lemma_keep_plain(acc, ls.drop_last());
        assert(trim(ls[ls.len() - 1]) != BEGIN@);
        assert(trim(ls[ls.len() - 1]) != END@);
        assert(acc + with_newlines(ls.drop_last()) + ls.last() + "\n"@ =~= acc + with_newlines(ls));
    }
}

/// Text with no three line breaks in a row.
pub open spec fn no_blank_run(s: Seq<char>) -> bool {
    forall|i: int| 0 <= i < s.len() - 2 ==> !(#[trigger] s[i] == '\n' && s[i + 1] == '\n' && s[i + 2]
        == '\n')
}

proof fn lemma_squeeze_keeps(s: Seq<char>)
    requires
        no_blank_run(s),
    ensures
        squeeze(s) == s,
    decreases s.len(),
{
    if s.len() > 0 {
        let dl = s.drop_last();
        assert(no_blank_run(dl)) by {
            assert forall|i: int| 0 <= i < dl.len() - 2 implies !(#[trigger] dl[i] == '\n' && dl[i + 1]
                == '\n' && dl[i + 2] == '\n') by {
                assert(dl[i] == s[i] && dl[i + 1] == s[i + 1] && dl[i + 2] == s[i + 2]);
            }
        }
        lemma_squeeze_keeps(dl);
        if s.last() == '\n' && dl.len() >= 2 && dl[dl.len() - 1] == '\n' && dl[dl.len() - 2] == '\n' {
            assert(s[s.len() - 3] == '\n');
        }
        assert(dl.push(s.last()) =~= s);
    }
}

/// A config text that is already clean is left alone by stripping: it ends
/// with one line break, has no run of blank lines, no carriage return, and
/// no line that is one of RatClick's markers.
pub proof fn law_clean_text_is_stripped(text: Seq<char>)
    requires
        text.len() > 0,
        text.last() == '\n',
        !(text.len() >= 2 && text[text.len() - 2] == '\n'),
        !has_char(text, '\r'),
        no_blank_run(text),
        forall|i: int|
            0 <= i < lines(text).len() ==> trim(#[trigger] lines(text)[i]) != BEGIN@ && trim(
                lines(text)[i],
            ) != END@,
    ensures
        strip_spec(text) == text,
{
    let dl = text.drop_last();
    lemma_split_nonempty(dl, '\n');
    assert(dl.push('\n') =~= text);
    let p = split(dl, '\n');
    assert(split(text, '\n') == p.push(Seq::<char>::empty()));
    assert(!has_char(dl, '\r')) by {
        if has_char(dl, '\r') {
            let k = choose|k: int| 0 <= k < dl.len() && dl[k] == '\r';
            assert(text[k] == '\r');
        }
    }
    lemma_split_lacks(dl, '\n', '\r');
    assert(p.push(Seq::<char>::empty()).drop_last() =~= p);
    assert forall|i: int| 0 <= i < p.len() implies strip_cr(#[trigger] p[i]) == p[i] by {
        assert(!has_char(p[i], '\r'));
        if p[i].len() > 0 {
            assert(p[i][p[i].len() - 1] != '\r');
        }
    }
    assert(lines(text) =~= p);
    assert forall|i: int| 0 <= i < p.len() implies trim(#[trigger] p[i]) != BEGIN@ && trim(p[i])
        != END@ by {
        assert(lines(text)[i] == p[i]);
    }
    lemma_keep_plain(Seq::empty(), p);
    lemma_with_newlines_join(p);
    lemma_join_split(dl, '\n');
    assert(Seq::<char>::empty() + with_newlines(p) =~= text);
    lemma_squeeze_keeps(text);
    assert(trim_blank_tail(text) == text);
}

/// Uninstalling restores the original bytes of a clean config that has an
/// `[ids]` section: splicing RatClick's block in and stripping it out again
/// gives the text back, whenever the command holds no line break.
pub proof fn law_uninstall_restores_clean(
    text: Seq<char>,
    layers: Seq<Seq<char>>,
    accels: Seq<(u8, Seq<char>)>,
    command: Seq<char>,
)
    requires
        text.len() > 0,
        text.last() == '\n',
        !(text.len() >= 2 && text[text.len() - 2] == '\n'),
        !has_char(text, '\r'),
        no_blank_run(text),
        forall|i: int|
            0 <= i < lines(text).len() ==> trim(#[trigger] lines(text)[i]) != BEGIN@ && trim(
                lines(text)[i],
            ) != END@,
        has_ids_line(text),
        layer_order(layers, accels),
        valid_models(accels),
        no_newline(command),
    ensures
        strip_spec(splice_spec(text, block_spec(layers, accels, command))) == text,
{
    law_clean_text_is_stripped(text);
    lemma_valid_keys(accels);
    law_uninstall_restores(text, layers, accels, command);
}



// ---------------------------------------------------------------------------
// Conflicts
// ---------------------------------------------------------------------------

/// The conflict check reports exactly the user's bindings of the same
/// shortcut: each binding it returns was found, is not RatClick's own, and
/// has both the modifiers and the key of `a` (so bare `F9` never collides
/// with `Super+F9`); and every such binding that was found is returned, once
/// for each time it was found, in the order found.
pub proof fn law_conflicts_are_exact(found: Seq<Binding>, a: Accel)
    ensures
        conflicts_spec(found, a) == found.filter(
            |b: Binding| b.accel.mods == a.mods && b.accel.key@ == a.key@ && !b.ours,
        ),
        forall|i: int|
            0 <= i < conflicts_spec(found, a).len() ==> {
                let b = #[trigger] conflicts_spec(found, a)[i];
                &&& b.accel.mods == a.mods
                &&& b.accel.key@ == a.key@
                &&& !b.ours
                &&& found.contains(b)
            },
        forall|j: int|
            0 <= j < found.len() && (#[trigger] found[j]).accel.mods == a.mods && found[j].accel.key@
                == a.key@ && !found[j].ours ==> conflicts_spec(found, a).contains(found[j]),
    decreases found.len(),
{
    reveal(Seq::filter);
    if found.len() > 0 {
        let d = found.drop_last();
        law_conflicts_are_exact(d, a);
        let r = conflicts_spec(d, a);
        assert forall|i: int| 0 <= i < conflicts_spec(found, a).len() implies ({
            let b = #[trigger] conflicts_spec(found, a)[i];
            &&& b.accel.mods == a.mods
            &&& b.accel.key@ == a.key@
            &&& !b.ours
            &&& found.contains(b)
        }) by {
            let b = conflicts_spec(found, a)[i];
            if i < r.len() {
                assert(b == r[i]);
                let k = choose|k: int| 0 <= k < d.len() && d[k] == b;
                assert(found[k] == b);
            } else {
                assert(b == found.last());
                assert(found[found.len() - 1] == b);
            }
        }
        assert forall|j: int|
            0 <= j < found.len() && (#[trigger] found[j]).accel.mods == a.mods && found[j].accel.key@
                == a.key@ && !found[j].ours implies conflicts_spec(found, a).contains(found[j]) by {
            if j < d.len() {
                assert(d[j] == found[j]);
                let k = choose|k: int| 0 <= k < r.len() && r[k] == d[j];
                if found.last().accel.mods == a.mods && found.last().accel.key@ == a.key@
                    && !found.last().ours {
                    assert(conflicts_spec(found, a)[k] == r[k]);
                } else {
                    assert(conflicts_spec(found, a) == r);
                }
            } else {
                assert(conflicts_spec(found, a) == r.push(found.last()));
                assert(conflicts_spec(found, a)[r.len() as int] == found[j]);
            }
        }
    }
}

} // verus!
