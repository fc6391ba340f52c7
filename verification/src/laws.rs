//! The guarantees of a switch, stated and proved over the file model:
//! what extraction returns, which sections a restore changes and to what,
//! that switching away and back restores every captured key pair, and
//! that a well-formed model survives writing and re-parsing unchanged.

use crate::creds::{
    CredentialV, access_key_name, cred_of, extractable, restore_section, secret_key_name,
    spec_extract, spec_lookup, spec_switch,
};
use crate::ini::{EntryV, SectionV, lemma_get_set_other, lemma_get_set_same, spec_get};
use crate::parse::{LineV, close_section, spec_classify, spec_fold, spec_lines, spec_parse};
use crate::text::{is_space, spec_find, spec_trim, trim_back, trim_front};
use crate::write::{render_entries, render_entry, render_header, render_section, spec_write};
use vstd::prelude::*;

verus! {

/// No two sections share a name.
pub open spec fn unique_names(ss: Seq<SectionV>) -> bool {
    forall|p: int, q: int|
        0 <= p < ss.len() && 0 <= q < ss.len() && p != q ==> #[trigger] ss[p].name
            != #[trigger] ss[q].name
}

/// The two field names differ.
pub proof fn lemma_key_names_distinct()
    ensures
        access_key_name() != secret_key_name(),
{
    assert(access_key_name().len() == 17);
    assert(secret_key_name().len() == 21);
}

/// The raw capture sequence is exactly a filter for the sections with
/// both key fields, each mapped to its credential: one record per such
/// section, in file order, with the section's own name and values.
pub proof fn lemma_extraction_complete(ss: Seq<SectionV>)
    ensures
        spec_extract(ss) == ss.filter(|s: SectionV| extractable(s)).map_values(
            |s: SectionV| cred_of(s),
        ),
    decreases ss.len(),
{
    reveal(Seq::filter);
    let pred = |s: SectionV| extractable(s);
    let f = |s: SectionV| cred_of(s);
    if ss.len() == 0 {
        assert(spec_extract(ss) =~= ss.filter(pred).map_values(f));
    } else {
        lemma_extraction_complete(ss.drop_last());
        if pred(ss.last()) {
            assert(ss.filter(pred) == ss.drop_last().filter(pred).push(ss.last()));
            assert(ss.filter(pred).map_values(f) =~= ss.drop_last().filter(pred).map_values(
                f,
            ).push(f(ss.last())));
        } else {
            assert(ss.filter(pred) == ss.drop_last().filter(pred));
        }
    }
}

/// Every extracted credential is the credential of some extractable
/// section of the file.
pub proof fn lemma_extract_element(ss: Seq<SectionV>, m: int)
    requires
        0 <= m < spec_extract(ss).len(),
    ensures
        exists|p: int|
            0 <= p < ss.len() && extractable(#[trigger] ss[p]) && spec_extract(ss)[m] == cred_of(
                ss[p],
            ),
    decreases ss.len(),
{
    let front = ss.drop_last();
    if extractable(ss.last()) && m == spec_extract(ss).len() - 1 {
        assert(spec_extract(ss)[m] == cred_of(ss.last()));
        assert(ss[ss.len() - 1] == ss.last());
        assert(0 <= ss.len() - 1 < ss.len() && extractable(ss[ss.len() - 1]) && spec_extract(
            ss,
        )[m] == cred_of(ss[ss.len() - 1]));
    } else {
        lemma_extract_element(front, m);
        let p = choose|p: int|
            0 <= p < front.len() && extractable(#[trigger] front[p]) && spec_extract(front)[m]
                == cred_of(front[p]);
        assert(front[p] == ss[p]);
        assert(spec_extract(ss)[m] == spec_extract(front)[m]);
        assert(0 <= p < ss.len() && extractable(ss[p]) && spec_extract(ss)[m] == cred_of(ss[p]));
    }
}

/// A successful lookup returns an element of the list, under the name
/// looked up.
pub proof fn lemma_lookup_element(cs: Seq<CredentialV>, name: Seq<u8>)
    requires
        spec_lookup(cs, name) is Some,
    ensures
        exists|m: int|
            0 <= m < cs.len() && #[trigger] cs[m] == spec_lookup(cs, name)->Some_0
                && cs[m].profile_name == name,
    decreases cs.len(),
{
    if cs.last().profile_name == name {
        assert(cs[cs.len() - 1] == cs.last());
    } else {
        lemma_lookup_element(cs.drop_last(), name);
        let m = choose|m: int|
            0 <= m < cs.drop_last().len() && #[trigger] cs.drop_last()[m] == spec_lookup(
                cs.drop_last(),
                name,
            )->Some_0 && cs.drop_last()[m].profile_name == name;
        assert(cs[m] == cs.drop_last()[m]);
    }
}

/// In a file without repeated names, looking an extractable section's name
/// up among the extracted credentials finds exactly that section's
/// credential.
pub proof fn lemma_lookup_extract(ss: Seq<SectionV>, j: int)
    requires
        unique_names(ss),
        0 <= j < ss.len(),
        extractable(ss[j]),
    ensures
        spec_lookup(spec_extract(ss), ss[j].name) == Some(cred_of(ss[j])),
    decreases ss.len(),
{
    let front = ss.drop_last();
    let e = spec_extract(ss);
    if j == ss.len() - 1 {
        assert(ss.last() == ss[j]);
        assert(e.last() == cred_of(ss[j]));
        assert(e.last().profile_name == ss[j].name);
    } else {
        assert(front[j] == ss[j]);
        assert(unique_names(front)) by {
            assert(forall|p: int| 0 <= p < front.len() ==> front[p] == ss[p]);
        }
        lemma_lookup_extract(front, j);
        if extractable(ss.last()) {
            assert(e == spec_extract(front).push(cred_of(ss.last())));
            assert(e.last() == cred_of(ss.last()));
            assert(ss[ss.len() - 1] == ss.last());
            assert(ss.last().name != ss[j].name);
            assert(e.last().profile_name != ss[j].name);
            assert(e.drop_last() =~= spec_extract(front));
        } else {
            assert(e == spec_extract(front));
        }
    }
}

/// A profile section present in both files keeps the pre-swap values: when
/// section `j` of the active file `a` carries both key fields, no name in
/// `a` repeats, and section `i` of the replacement `b` has the same name
/// and an access-key field, then after the switch section `i` holds
/// exactly the key values section `j` held in `a`.
pub proof fn lemma_matching_profile_preserved(a: Seq<SectionV>, b: Seq<SectionV>, i: int, j: int)
    requires
        unique_names(a),
        0 <= j < a.len(),
        0 <= i < b.len(),
        b[i].name == a[j].name,
        extractable(a[j]),
        spec_get(b[i].entries, access_key_name()) is Some,
    ensures
        spec_get(spec_switch(a, b)[i].entries, access_key_name()) == spec_get(
            a[j].entries,
            access_key_name(),
        ),
        spec_get(spec_switch(a, b)[i].entries, secret_key_name()) == spec_get(
            a[j].entries,
            secret_key_name(),
        ),
{
    lemma_key_names_distinct();
    lemma_lookup_extract(a, j);
    let c = cred_of(a[j]);
    let e1 = crate::ini::spec_set(b[i].entries, access_key_name(), c.access_key);
    let e2 = crate::ini::spec_set(e1, secret_key_name(), c.secret_key);
    assert(spec_switch(a, b)[i] == restore_section(b[i], spec_extract(a)));
    assert(spec_switch(a, b)[i].entries == e2);
    lemma_get_set_same(e1, secret_key_name(), c.secret_key);
    lemma_get_set_other(e1, secret_key_name(), c.secret_key, access_key_name());
    lemma_get_set_same(b[i].entries, access_key_name(), c.access_key);
}

/// A profile section present only in the replacement is untouched: when no
/// section of the active file `a` bears the name of section `i` of the
/// replacement `b`, the switch leaves that section exactly as `b` has it.
pub proof fn lemma_unmatched_profile_untouched(a: Seq<SectionV>, b: Seq<SectionV>, i: int)
    requires
        0 <= i < b.len(),
        forall|p: int| 0 <= p < a.len() ==> #[trigger] a[p].name != b[i].name,
    ensures
        spec_switch(a, b)[i] == b[i],
{
    let e = spec_extract(a);
    if spec_lookup(e, b[i].name) is Some {
        lemma_lookup_element(e, b[i].name);
        let m = choose|m: int|
            0 <= m < e.len() && #[trigger] e[m] == spec_lookup(e, b[i].name)->Some_0
                && e[m].profile_name == b[i].name;
        lemma_extract_element(a, m);
        let p = choose|p: int|
            0 <= p < a.len() && extractable(#[trigger] a[p]) && e[m] == cred_of(a[p]);
        assert(a[p].name == b[i].name);
        assert(false);
    }
    assert(spec_switch(a, b)[i] == restore_section(b[i], e));
}

/// A switch only rewrites key material: the result has the replacement's
/// sections, in order and under their names, and in every section each
/// field other than the two key fields keeps the replacement's own value.
pub proof fn lemma_switch_touches_only_keys(a: Seq<SectionV>, b: Seq<SectionV>, i: int, k: Seq<u8>)
    requires
        0 <= i < b.len(),
        k != access_key_name(),
        k != secret_key_name(),
    ensures
        spec_switch(a, b).len() == b.len(),
        spec_switch(a, b)[i].name == b[i].name,
        spec_get(spec_switch(a, b)[i].entries, k) == spec_get(b[i].entries, k),
{
    let e = spec_extract(a);
    assert(spec_switch(a, b)[i] == restore_section(b[i], e));
    if spec_get(b[i].entries, access_key_name()) is Some && spec_lookup(e, b[i].name) is Some {
        let c = spec_lookup(e, b[i].name)->Some_0;
        let e1 = crate::ini::spec_set(b[i].entries, access_key_name(), c.access_key);
        lemma_get_set_other(e1, secret_key_name(), c.secret_key, k);
        lemma_get_set_other(b[i].entries, access_key_name(), c.access_key, k);
    }
}

/// Every credential the intermediate file yields under the name of
/// section `j` of `a` carries section `j`'s own key values.
proof fn lemma_mid_cred_values(a: Seq<SectionV>, b: Seq<SectionV>, j: int, m: int)
    requires
        unique_names(a),
        0 <= j < a.len(),
        extractable(a[j]),
        0 <= m < spec_extract(spec_switch(a, b)).len(),
        spec_extract(spec_switch(a, b))[m].profile_name == a[j].name,
    ensures
        spec_extract(spec_switch(a, b))[m].access_key == cred_of(a[j]).access_key,
        spec_extract(spec_switch(a, b))[m].secret_key == cred_of(a[j]).secret_key,
{
    lemma_key_names_distinct();
    lemma_lookup_extract(a, j);
    let mid = spec_switch(a, b);
    let ec = spec_extract(mid);
    lemma_extract_element(mid, m);
    let p = choose|p: int|
        0 <= p < mid.len() && extractable(#[trigger] mid[p]) && ec[m] == cred_of(mid[p]);
    assert(mid[p] == restore_section(b[p], spec_extract(a)));
    assert(mid[p].name == b[p].name);
    let c = cred_of(a[j]);
    if spec_get(b[p].entries, access_key_name()) is Some {
        assert(spec_lookup(spec_extract(a), b[p].name) == Some(c));
        let e1 = crate::ini::spec_set(b[p].entries, access_key_name(), c.access_key);
        let e2 = crate::ini::spec_set(e1, secret_key_name(), c.secret_key);
        assert(mid[p].entries == e2);
        lemma_get_set_same(e1, secret_key_name(), c.secret_key);
        lemma_get_set_other(e1, secret_key_name(), c.secret_key, access_key_name());
        lemma_get_set_same(b[p].entries, access_key_name(), c.access_key);
        assert(cred_of(mid[p]).access_key == c.access_key);
        assert(cred_of(mid[p]).secret_key == c.secret_key);
    } else {
        assert(mid[p] == b[p]);
        assert(extractable(mid[p]));
        assert(false);
    }
}

/// Switching away and straight back restores every captured key pair: for
/// a file `a` without repeated names, after switching from `a` to `b` and
/// then from that result back to `a`, every section of `a` that carried
/// both key fields carries its original values again, whatever `b` held.
pub proof fn lemma_switch_round_trip(a: Seq<SectionV>, b: Seq<SectionV>, j: int)
    requires
        unique_names(a),
        0 <= j < a.len(),
        extractable(a[j]),
    ensures
        spec_get(
            spec_switch(spec_switch(a, b), a)[j].entries,
            access_key_name(),
        ) == spec_get(a[j].entries, access_key_name()),
        spec_get(
            spec_switch(spec_switch(a, b), a)[j].entries,
            secret_key_name(),
        ) == spec_get(a[j].entries, secret_key_name()),
{
    lemma_key_names_distinct();
    let mid = spec_switch(a, b);
    let ec = spec_extract(mid);
    let fin = spec_switch(mid, a);
    let n = a[j].name;
    assert(fin[j] == restore_section(a[j], ec));
    if spec_lookup(ec, n) is Some {
        lemma_lookup_element(ec, n);
        let m = choose|m: int|
            0 <= m < ec.len() && #[trigger] ec[m] == spec_lookup(ec, n)->Some_0
                && ec[m].profile_name == n;
        lemma_mid_cred_values(a, b, j, m);
        let c = spec_lookup(ec, n)->Some_0;
        let e1 = crate::ini::spec_set(a[j].entries, access_key_name(), c.access_key);
        let e2 = crate::ini::spec_set(e1, secret_key_name(), c.secret_key);
        assert(fin[j].entries == e2);
        lemma_get_set_same(e1, secret_key_name(), c.secret_key);
        lemma_get_set_other(e1, secret_key_name(), c.secret_key, access_key_name());
        lemma_get_set_same(a[j].entries, access_key_name(), c.access_key);
    } else {
        assert(fin[j] == a[j]);
    }
}

/// A sequence that neither starts nor ends in whitespace is its own trim.
pub proof fn lemma_trim_noop(s: Seq<u8>)
    requires
        s.len() == 0 || (!is_space(s[0]) && !is_space(s.last())),
    ensures
        spec_trim(s) == s,
{
    assert(trim_front(s) == s);
    assert(trim_back(s) == s);
}

/// Splitting peels a newline-free first line off the front.
pub proof fn lemma_lines_concat(x: Seq<u8>, rest: Seq<u8>)
    requires
        forall|k: int| 0 <= k < x.len() ==> x[k] != 10,
    ensures
        spec_lines(x + seq![10u8] + rest) == seq![x] + spec_lines(rest),
    decreases x.len(),
{
    let s = x + seq![10u8] + rest;
    if x.len() == 0 {
        assert(s =~= seq![10u8] + rest);
        assert(s[0] == 10);
        assert(s.drop_first() =~= rest);
        assert(spec_lines(s) =~~= seq![x] + spec_lines(rest));
    } else {
        assert(s[0] == x[0]);
        assert(s.drop_first() =~= x.drop_first() + seq![10u8] + rest);
        lemma_lines_concat(x.drop_first(), rest);
        let r = spec_lines(s.drop_first());
        assert(r == seq![x.drop_first()] + spec_lines(rest));
        assert(r[0] == x.drop_first());
        assert(seq![s[0]] + r[0] =~= x);
        assert(r.drop_first() =~= spec_lines(rest));
        assert(spec_lines(s) =~~= seq![x] + spec_lines(rest));
    }
}

/// Serialization distributes over concatenation of section lists.
pub proof fn lemma_write_add(s1: Seq<SectionV>, s2: Seq<SectionV>)
    ensures
        spec_write(s1 + s2) == spec_write(s1) + spec_write(s2),
    decreases s2.len(),
{
    if s2.len() == 0 {
        assert(s1 + s2 =~= s1);
        assert(spec_write(s1) + spec_write(s2) =~= spec_write(s1));
    } else {
        lemma_write_add(s1, s2.drop_last());
        assert((s1 + s2).drop_last() =~= s1 + s2.drop_last());
        assert((s1 + s2).last() == s2.last());
        assert(spec_write(s1 + s2) =~= spec_write(s1) + spec_write(s2));
    }
}

/// Rendering distributes over concatenation of entry lists.
pub proof fn lemma_render_entries_add(e1: Seq<EntryV>, e2: Seq<EntryV>)
    ensures
        render_entries(e1 + e2) == render_entries(e1) + render_entries(e2),
    decreases e2.len(),
{
    if e2.len() == 0 {
        assert(e1 + e2 =~= e1);
        assert(render_entries(e1) + render_entries(e2) =~= render_entries(e1));
    } else {
        lemma_render_entries_add(e1, e2.drop_last());
        assert((e1 + e2).drop_last() =~= e1 + e2.drop_last());
        assert((e1 + e2).last() == e2.last());
        assert(render_entries(e1 + e2) =~= render_entries(e1) + render_entries(e2));
    }
}


/// A name can be written and read back: no newline inside, no whitespace
/// at the edges.
pub open spec fn wf_name(n: Seq<u8>) -> bool {
    &&& forall|k: int| 0 <= k < n.len() ==> #[trigger] n[k] != 10
    &&& n.len() > 0 ==> !is_space(n[0]) && !is_space(n.last())
}

/// An entry can be written and read back: the key is non-empty, free of
/// newlines and `=`, does not open as a comment or header, and neither
/// key nor value has whitespace at the edges or a newline inside.
pub open spec fn wf_entry(e: EntryV) -> bool {
    &&& e.key.len() > 0
    &&& !is_space(e.key[0]) && !is_space(e.key.last())
    &&& forall|k: int| 0 <= k < e.key.len() ==> #[trigger] e.key[k] != 10 && e.key[k] != 61
    &&& e.key[0] != 59 && e.key[0] != 35 && e.key[0] != 91
    &&& forall|k: int| 0 <= k < e.value.len() ==> #[trigger] e.value[k] != 10
    &&& e.value.len() > 0 ==> !is_space(e.value[0]) && !is_space(e.value.last())
}

/// A section whose name and entries all round-trip.
pub open spec fn wf_section(s: SectionV) -> bool {
    &&& wf_name(s.name)
    &&& forall|j: int| 0 <= j < s.entries.len() ==> wf_entry(#[trigger] s.entries[j])
}

/// A file that serialization represents faithfully: every section
/// round-trips, only the leading section may be unnamed, and an unnamed
/// leading section holds at least one entry.
pub open spec fn wf_file(ss: Seq<SectionV>) -> bool {
    &&& forall|i: int| 0 <= i < ss.len() ==> wf_section(#[trigger] ss[i])
    &&& forall|i: int| 1 <= i < ss.len() ==> (#[trigger] ss[i].name).len() > 0
    &&& (ss.len() > 0 && ss[0].name.len() == 0 ==> ss[0].entries.len() > 0)
}

/// A written header line reads back as a header with the same name.
pub proof fn lemma_classify_header(name: Seq<u8>)
    requires
        wf_name(name),
        name.len() > 0,
    ensures
        spec_classify(seq![91u8] + name + seq![93u8]) == (LineV::Header { name }),
{
    let t = seq![91u8] + name + seq![93u8];
    assert(t[0] == 91);
    assert(t.last() == 93);
    assert(!is_space(t[0]) && !is_space(t.last()));
    lemma_trim_noop(t);
    assert(t.len() >= 2);
    assert(t.subrange(1, t.len() - 1) =~= name);
    lemma_trim_noop(name);
}

/// A written entry line reads back as the same key/value pair.
pub proof fn lemma_classify_pair(key: Seq<u8>, value: Seq<u8>)
    requires
        wf_entry(EntryV { key, value }),
    ensures
        spec_classify(key + seq![61u8] + value) == (LineV::Pair { key, value }),
{
    let t = key + seq![61u8] + value;
    assert(t[0] == key[0]);
    assert(!is_space(t[0]));
    if value.len() > 0 {
        assert(t.last() == value.last());
    } else {
        assert(t.last() == 61);
    }
    assert(!is_space(t.last()));
    lemma_trim_noop(t);
    assert(t[0] != 59 && t[0] != 35 && t[0] != 91);
    assert(t[key.len() as int] == 61);
    crate::text::lemma_spec_find(t, 61);
    match spec_find(t, 61) {
        Some(i) => {
            if i < key.len() {
                assert(t[i] == key[i]);
                assert(false);
            }
            if i > key.len() {
                assert(t[key.len() as int] != 61);
                assert(false);
            }
            assert(i == key.len());
        },
        None => {
            assert(t[key.len() as int] != 61);
            assert(false);
        },
    }
    assert(t.subrange(0, key.len() as int) =~= key);
    lemma_trim_noop(key);
    assert(t.subrange(key.len() as int + 1, t.len() as int) =~= value);
    lemma_trim_noop(value);
}


/// Folding the written form of well-formed entries just appends them to
/// the section being filled.
proof fn lemma_fold_entries(
    es: Seq<EntryV>,
    tail: Seq<u8>,
    done: Seq<SectionV>,
    cur: SectionV,
)
    requires
        forall|j: int| 0 <= j < es.len() ==> wf_entry(#[trigger] es[j]),
    ensures
        spec_fold(spec_lines(render_entries(es) + tail), done, cur) == spec_fold(
            spec_lines(tail),
            done,
            SectionV { name: cur.name, entries: cur.entries + es },
        ),
    decreases es.len(),
{
    if es.len() == 0 {
        assert(render_entries(es) + tail =~= tail);
        assert(SectionV { name: cur.name, entries: cur.entries + es } =~= cur);
    } else {
        reveal_with_fuel(crate::write::render_entries, 2);
        let e0 = es[0];
        assert(es =~= seq![e0] + es.drop_first());
        lemma_render_entries_add(seq![e0], es.drop_first());
        assert(seq![e0].drop_last() =~= Seq::<EntryV>::empty());
        assert(render_entries(seq![e0]) =~= render_entry(e0));
        let line = e0.key + seq![61u8] + e0.value;
        let after = render_entries(es.drop_first()) + tail;
        assert(render_entries(es) + tail =~= line + seq![10u8] + after);
        assert forall|k: int| 0 <= k < line.len() implies line[k] != 10 by {
            if k < e0.key.len() {
                assert(line[k] == e0.key[k]);
            } else if k == e0.key.len() {
                assert(line[k] == 61);
            } else {
                assert(line[k] == e0.value[k - e0.key.len() - 1]);
            }
        }
        lemma_lines_concat(line, after);
        assert(EntryV { key: e0.key, value: e0.value } =~= e0);
        lemma_classify_pair(e0.key, e0.value);
        let ls = seq![line] + spec_lines(after);
        assert(ls[0] == line);
        assert(ls.drop_first() =~~= spec_lines(after));
        let cur2 = SectionV { name: cur.name, entries: cur.entries.push(e0) };
        assert(spec_fold(spec_lines(render_entries(es) + tail), done, cur) == spec_fold(
            spec_lines(after),
            done,
            cur2,
        ));
        assert(forall|j: int|
            0 <= j < es.drop_first().len() ==> wf_entry(#[trigger] es.drop_first()[j]));
        lemma_fold_entries(es.drop_first(), tail, done, cur2);
        assert(SectionV { name: cur2.name, entries: cur2.entries + es.drop_first() } =~= SectionV {
            name: cur.name,
            entries: cur.entries + es,
        });
    }
}

/// Folding the written form of well-formed, named sections appends them
/// behind the closed current state.
#[verifier::rlimit(50)]
proof fn lemma_fold_sections(ss: Seq<SectionV>, done: Seq<SectionV>, cur: SectionV)
    requires
        forall|i: int| 0 <= i < ss.len() ==> wf_section(#[trigger] ss[i]),
        forall|i: int| 0 <= i < ss.len() ==> (#[trigger] ss[i].name).len() > 0,
    ensures
        spec_fold(spec_lines(spec_write(ss)), done, cur) == Some(close_section(done, cur) + ss),
    decreases ss.len(),
{
    if ss.len() == 0 {
        reveal_with_fuel(crate::parse::spec_fold, 2);
        assert(spec_write(ss) =~= Seq::<u8>::empty());
        lemma_trim_noop(Seq::<u8>::empty());
        assert(spec_lines(Seq::<u8>::empty()) =~~= seq![Seq::<u8>::empty()]);
        assert(spec_classify(Seq::<u8>::empty()) == LineV::Blank);
        assert(seq![Seq::<u8>::empty()].drop_first() =~~= Seq::<Seq<u8>>::empty());
        assert(spec_fold(Seq::<Seq<u8>>::empty(), done, cur) == Some(close_section(done, cur)));
        assert(close_section(done, cur) + ss =~= close_section(done, cur));
    } else {
        reveal_with_fuel(crate::write::spec_write, 2);
        let s0 = ss[0];
        let rest = ss.drop_first();
        assert(ss =~= seq![s0] + rest);
        lemma_write_add(seq![s0], rest);
        assert(seq![s0].drop_last() =~= Seq::<SectionV>::empty());
        assert(spec_write(seq![s0]) =~= render_section(s0));
        let hl = seq![91u8] + s0.name + seq![93u8];
        let after = render_entries(s0.entries) + spec_write(rest);
        assert(render_header(s0.name) =~= hl + seq![10u8]);
        assert(spec_write(ss) =~= hl + seq![10u8] + after);
        assert forall|k: int| 0 <= k < hl.len() implies hl[k] != 10 by {
            if 1 <= k < s0.name.len() + 1 {
                assert(hl[k] == s0.name[k - 1]);
            }
        }
        lemma_lines_concat(hl, after);
        lemma_classify_header(s0.name);
        let ls = seq![hl] + spec_lines(after);
        assert(ls[0] == hl);
        assert(ls.drop_first() =~~= spec_lines(after));
        let fresh = SectionV { name: s0.name, entries: Seq::empty() };
        assert(spec_fold(spec_lines(spec_write(ss)), done, cur) == spec_fold(
            spec_lines(after),
            close_section(done, cur),
            fresh,
        ));
        lemma_fold_entries(s0.entries, spec_write(rest), close_section(done, cur), fresh);
        assert(SectionV { name: fresh.name, entries: fresh.entries + s0.entries } =~= s0);
        assert(forall|i: int| 0 <= i < rest.len() ==> wf_section(#[trigger] rest[i]));
        assert(forall|i: int| 0 <= i < rest.len() ==> (#[trigger] rest[i].name).len() > 0);
        lemma_fold_sections(rest, close_section(done, cur), s0);
        assert(close_section(close_section(done, cur), s0) =~= close_section(done, cur).push(s0));
        assert(close_section(done, cur).push(s0) + rest =~= close_section(done, cur) + ss);
    }
}

/// Round trip: the written form of a well-formed file parses back to
/// exactly that file, section for section, entry for entry.
pub proof fn lemma_write_parse_round_trip(ss: Seq<SectionV>)
    requires
        wf_file(ss),
    ensures
        spec_parse(spec_write(ss)) == Some(ss),
{
    let init = SectionV { name: Seq::<u8>::empty(), entries: Seq::<EntryV>::empty() };
    if ss.len() == 0 {
        lemma_fold_sections(ss, Seq::empty(), init);
        assert(close_section(Seq::empty(), init) + ss =~= ss);
    } else if ss[0].name.len() > 0 {
        lemma_fold_sections(ss, Seq::empty(), init);
        assert(close_section(Seq::empty(), init) + ss =~= ss);
    } else {
        reveal_with_fuel(crate::write::spec_write, 2);
        let s0 = ss[0];
        let rest = ss.drop_first();
        assert(ss =~= seq![s0] + rest);
        lemma_write_add(seq![s0], rest);
        assert(seq![s0].drop_last() =~= Seq::<SectionV>::empty());
        assert(spec_write(seq![s0]) =~= render_section(s0));
        assert(render_section(s0) =~= render_entries(s0.entries));
        assert(spec_write(ss) =~= render_entries(s0.entries) + spec_write(rest));
        lemma_fold_entries(s0.entries, spec_write(rest), Seq::empty(), init);
        assert(SectionV { name: init.name, entries: init.entries + s0.entries } =~= s0);
        assert(forall|i: int| 0 <= i < rest.len() ==> wf_section(#[trigger] rest[i]));
        assert(forall|i: int| 0 <= i < rest.len() ==> (#[trigger] rest[i].name).len() > 0);
        lemma_fold_sections(rest, Seq::empty(), s0);
        assert(close_section(Seq::empty(), s0) =~= seq![s0]);
        assert(seq![s0] + rest =~= ss);
    }
}

} // verus!

verus! {

/// In a file without repeated names, the extracted credentials bear
/// pairwise-distinct profile names.
pub proof fn lemma_extract_distinct(ss: Seq<SectionV>)
    requires
        unique_names(ss),
    ensures
        crate::creds::distinct_profile_names(spec_extract(ss)),
    decreases ss.len(),
{
    if ss.len() > 0 {
        let front = ss.drop_last();
        assert(forall|j: int| 0 <= j < front.len() ==> front[j] == ss[j]);
        assert(ss[ss.len() - 1] == ss.last());
        assert(unique_names(front)) by {
            assert forall|p: int, q: int|
                0 <= p < front.len() && 0 <= q < front.len() && p != q implies (
            #[trigger] front[p]).name != (#[trigger] front[q]).name by {
                assert(ss[p].name != ss[q].name);
            }
        }
        lemma_extract_distinct(front);
        if extractable(ss.last()) {
            let e = spec_extract(ss);
            let ef = spec_extract(front);
            assert(e == ef.push(cred_of(ss.last())));
            assert forall|j: int| 0 <= j < ef.len() implies (#[trigger] ef[j]).profile_name
                != ss.last().name by {
                lemma_extract_element(front, j);
                let p = choose|p: int|
                    0 <= p < front.len() && extractable(#[trigger] front[p]) && spec_extract(
                        front,
                    )[j] == cred_of(front[p]);
                assert(ss[p].name != ss[ss.len() - 1].name);
            }
            assert forall|p: int, q: int|
                0 <= p < e.len() && 0 <= q < e.len() && p != q implies (
            #[trigger] e[p]).profile_name != (#[trigger] e[q]).profile_name by {
                if p < ef.len() && q < ef.len() {
                    assert(e[p] == ef[p]);
                    assert(e[q] == ef[q]);
                    assert(ef[p].profile_name != ef[q].profile_name);
                } else if p == ef.len() {
                    assert(e[q] == ef[q]);
                } else {
                    assert(e[p] == ef[p]);
                }
            }
        }
    }
}

/// In a file without repeated names — what the data model assumes of a
/// configuration file — collapsing the captures by name keeps them all:
/// extraction returns exactly one record per section with both key
/// fields.
pub proof fn lemma_extraction_exact(ss: Seq<SectionV>)
    requires
        unique_names(ss),
    ensures
        crate::creds::spec_dedup(spec_extract(ss)) == spec_extract(ss),
{
    lemma_extract_distinct(ss);
    crate::creds::lemma_dedup_of_distinct(spec_extract(ss));
}

} // verus!
