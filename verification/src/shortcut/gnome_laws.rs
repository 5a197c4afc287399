//! What installing RatClick's GNOME keybindings promises: what it writes
//! reads back as written, and installing again never piles up entries.
use vstd::prelude::*;
use crate::accel::{accel_wf, model, Accel};
use crate::accel_laws::law_gtk_roundtrip;
use crate::shortcut::gnome::{
    entry_writes, first_string, label_spec, our_path, ours_of, ours_path, parsed_accels,
    theirs_of, with_our_paths, CUSTOM_PATH_ROOT, OUR_PATH_PREFIX,
};
use crate::shortcut::gvariant::{law_quote_parse_roundtrip, parse_string_list_spec};
use crate::text::{contains_seq, dec, lemma_dec_injective};

verus! {

/// RatClick's paths, in order.
pub open spec fn our_paths_upto(n: nat) -> Seq<Seq<char>> {
    Seq::new(n, |i: int| our_path(i))
}

proof fn lemma_our_path_is_ours(i: int)
    ensures
        ours_path(our_path(i)),
{
    let root = CUSTOM_PATH_ROOT@ + "/"@;
    let p = our_path(i);
    assert(p =~= root + (OUR_PATH_PREFIX@ + (dec(i as u64) + "/"@)));
    let at = root.len() as int;
    assert(p.subrange(at, at + OUR_PATH_PREFIX@.len()) =~= OUR_PATH_PREFIX@);
    assert(contains_seq(p, OUR_PATH_PREFIX@));
}

proof fn lemma_our_path_injective(i: int, j: int)
    requires
        0 <= i < 0x1_0000_0000_0000_0000,
        0 <= j < 0x1_0000_0000_0000_0000,
        our_path(i) == our_path(j),
    ensures
        i == j,
{
    let head = CUSTOM_PATH_ROOT@ + "/"@ + OUR_PATH_PREFIX@;
    let di = dec(i as u64);
    let dj = dec(j as u64);
    assert(our_path(i) =~= head + (di + "/"@));
    assert(our_path(j) =~= head + (dj + "/"@));
    let a = head.len() as int;
    assert(our_path(i).subrange(a, a + di.len()) =~= di);
    assert(our_path(j).subrange(a, a + dj.len()) =~= dj);
    assert(di.len() == dj.len());
    lemma_dec_injective(i as u64, j as u64);
}

proof fn lemma_split_of_concat(a: Seq<Seq<char>>, b: Seq<Seq<char>>)
    ensures
        theirs_of(a + b) == theirs_of(a) + theirs_of(b),
        ours_of(a + b) == ours_of(a) + ours_of(b),
    decreases b.len(),
{
    if b.len() == 0 {
        assert(a + b =~= a);
        assert(theirs_of(a) + theirs_of(b) =~= theirs_of(a));
        assert(ours_of(a) + ours_of(b) =~= ours_of(a));
    } else {
        lemma_split_of_concat(a, b.drop_last());
        assert((a + b).drop_last() =~= a + b.drop_last());
        assert((a + b).last() == b.last());
        if ours_path(b.last()) {
            assert(ours_of(a) + ours_of(b.drop_last()).push(b.last()) =~= (ours_of(a) + ours_of(
                b.drop_last(),
            )).push(b.last()));
        } else {
            assert(theirs_of(a) + theirs_of(b.drop_last()).push(b.last()) =~= (theirs_of(a)
                + theirs_of(b.drop_last())).push(b.last()));
        }
    }
}

proof fn lemma_theirs_only(ps: Seq<Seq<char>>)
    ensures
        forall|k: int| 0 <= k < theirs_of(ps).len() ==> !ours_path(#[trigger] theirs_of(ps)[k]),
        theirs_of(theirs_of(ps)) == theirs_of(ps),
        ours_of(theirs_of(ps)) == Seq::<Seq<char>>::empty(),
    decreases ps.len(),
{
    if ps.len() > 0 {
        lemma_theirs_only(ps.drop_last());
        let t = theirs_of(ps.drop_last());
        if !ours_path(ps.last()) {
            assert(t.push(ps.last()).drop_last() =~= t);
        }
    }
}

proof fn lemma_ours_only(n: nat)
    ensures
        theirs_of(our_paths_upto(n)) == Seq::<Seq<char>>::empty(),
        ours_of(our_paths_upto(n)) == our_paths_upto(n),
    decreases n,
{
    if n > 0 {
        lemma_ours_only((n - 1) as nat);
        assert(our_paths_upto(n).drop_last() =~= our_paths_upto((n - 1) as nat));
        lemma_our_path_is_ours(n - 1);
        assert(our_paths_upto((n - 1) as nat).push(our_path(n - 1)) =~= our_paths_upto(n));
    }
}

/// With none of RatClick's paths on it, the list gets them appended in order.
proof fn lemma_append_ours(t: Seq<Seq<char>>, n: nat)
    requires
        forall|k: int| 0 <= k < t.len() ==> !ours_path(#[trigger] t[k]),
        n <= 0x1_0000_0000_0000_0000,
    ensures
        with_our_paths(t, n) == t + our_paths_upto(n),
    decreases n,
{
    if n == 0 {
        assert(t + our_paths_upto(0) =~= t);
    } else {
        let m = (n - 1) as nat;
        lemma_append_ours(t, m);
        let p = t + our_paths_upto(m);
        let x = our_path(m as int);
        lemma_our_path_is_ours(m as int);
        if p.contains(x) {
            let k = choose|k: int| 0 <= k < p.len() && p[k] == x;
            if k < t.len() {
                assert(!ours_path(t[k]));
            } else {
                assert(p[k] == our_path(k - t.len()));
                lemma_our_path_injective(k - t.len(), m as int);
            }
        }
        assert(p.push(x) =~= t + our_paths_upto(n));
    }
}

/// Installing again never piles up entries: once RatClick's old paths are
/// taken off the custom-keybinding list and its paths for `n` shortcuts are
/// added, the user's own paths are exactly those the list had, RatClick's
/// are exactly its first `n`, and doing the same again changes nothing.
pub proof fn law_reinstall_never_accumulates(paths: Seq<Seq<char>>, n: usize)
    ensures
        ({
            let once = with_our_paths(theirs_of(paths), n as nat);
            &&& theirs_of(once) == theirs_of(paths)
            &&& ours_of(once) == our_paths_upto(n as nat)
            &&& with_our_paths(theirs_of(once), n as nat) == once
        }),
{
    let t = theirs_of(paths);
    lemma_theirs_only(paths);
    lemma_append_ours(t, n as nat);
    let once = t + our_paths_upto(n as nat);
    lemma_split_of_concat(t, our_paths_upto(n as nat));
    lemma_ours_only(n as nat);
    assert(theirs_of(once) =~= t);
    assert(ours_of(once) =~= our_paths_upto(n as nat));
}


/// What installing writes for one accelerator reads back as written: the
/// name and the command as themselves, and the binding as that accelerator.
pub proof fn law_entry_reads_back(i: int, a: Accel, n: int, command: Seq<char>)
    requires
        accel_wf(a),
    ensures
        ({
            let w = entry_writes(i, model(a), n, command);
            &&& first_string(Some(w[0].2)) == label_spec(i, n)
            &&& first_string(Some(w[1].2)) == command
            &&& parsed_accels(parse_string_list_spec(w[2].2)) == seq![model(a)]
        }),
{
    let w = entry_writes(i, model(a), n, command);
    law_quote_parse_roundtrip(label_spec(i, n));
    law_quote_parse_roundtrip(command);
    let g = crate::accel::to_gtk_spec(a.mods.bits(), a.key@);
    law_quote_parse_roundtrip(g);
    law_gtk_roundtrip(a);
    assert(seq![g].drop_last() =~= Seq::<Seq<char>>::empty());
    assert(parsed_accels(Seq::<Seq<char>>::empty()) == Seq::<(u8, Seq<char>)>::empty());
    assert(parsed_accels(seq![g]) == Seq::<(u8, Seq<char>)>::empty().push(model(a)));
    assert(Seq::<(u8, Seq<char>)>::empty().push(model(a)) =~= seq![model(a)]);
    assert(w[0].2 == crate::shortcut::gvariant::quote_spec(label_spec(i, n)));
    assert(parse_string_list_spec(w[0].2).len() > 0);
    assert(first_string(Some(w[0].2)) == label_spec(i, n));
    assert(first_string(Some(w[1].2)) == command);
    assert(parsed_accels(parse_string_list_spec(w[2].2)) == seq![model(a)]);
}

} // verus!
