//! Credentials: which sections carry a usable key pair, how they are
//! captured before a swap, and how they are written back into the
//! replacement file afterwards.

use crate::ini::{
    Entry, IniFile, Section, SectionV, entries_view, sections_view, spec_get, spec_set,
};
use crate::text::{bytes_eq, copy_bytes};
use vstd::prelude::*;

verus! {

/// One captured credential: the section it came from and its two keys.
/// The unnamed leading section is captured under the empty name.
pub struct Credential {
    pub profile_name: Vec<u8>,
    pub access_key: Vec<u8>,
    pub secret_key: Vec<u8>,
}

/// Mathematical value of a `Credential`.
#[verifier::ext_equal]
pub ghost struct CredentialV {
    pub profile_name: Seq<u8>,
    pub access_key: Seq<u8>,
    pub secret_key: Seq<u8>,
}

impl View for Credential {
    type V = CredentialV;

    open spec fn view(&self) -> CredentialV {
        CredentialV {
            profile_name: self.profile_name@,
            access_key: self.access_key@,
            secret_key: self.secret_key@,
        }
    }
}

/// The credential list as mathematical values.
pub open spec fn creds_view(cs: Seq<Credential>) -> Seq<CredentialV> {
    Seq::new(cs.len(), |i: int| cs[i]@)
}

/// The bytes of the field name `aws_access_key_id`.
pub open spec fn access_key_name() -> Seq<u8> {
    seq![97u8, 119, 115, 95, 97, 99, 99, 101, 115, 115, 95, 107, 101, 121, 95, 105, 100]
}

/// The bytes of the field name `aws_secret_access_key`.
pub open spec fn secret_key_name() -> Seq<u8> {
    seq![
        97u8,
        119,
        115,
        95,
        115,
        101,
        99,
        114,
        101,
        116,
        95,
        97,
        99,
        99,
        101,
        115,
        115,
        95,
        107,
        101,
        121,
    ]
}

/// The field name `aws_access_key_id` as a vector.
pub fn access_key_bytes() -> (r: Vec<u8>)
    ensures
        r@ == access_key_name(),
{
    let mut v: Vec<u8> = Vec::new();
    v.push(97);
    v.push(119);
    v.push(115);
    v.push(95);
    v.push(97);
    v.push(99);
    v.push(99);
    v.push(101);
    v.push(115);
    v.push(115);
    v.push(95);
    v.push(107);
    v.push(101);
    v.push(121);
    v.push(95);
    v.push(105);
    v.push(100);
    proof {
        assert(v@ =~= access_key_name());
    }
    v
}

/// The field name `aws_secret_access_key` as a vector.
pub fn secret_key_bytes() -> (r: Vec<u8>)
    ensures
        r@ == secret_key_name(),
{
    let mut v: Vec<u8> = Vec::new();
    v.push(97);
    v.push(119);
    v.push(115);
    v.push(95);
    v.push(115);
    v.push(101);
    v.push(99);
    v.push(114);
    v.push(101);
    v.push(116);
    v.push(95);
    v.push(97);
    v.push(99);
    v.push(99);
    v.push(101);
    v.push(115);
    v.push(115);
    v.push(95);
    v.push(107);
    v.push(101);
    v.push(121);
    proof {
        assert(v@ =~= secret_key_name());
    }
    v
}

/// A section yields a credential exactly when it has both key fields.
pub open spec fn extractable(s: SectionV) -> bool {
    spec_get(s.entries, access_key_name()) is Some && spec_get(s.entries, secret_key_name())
        is Some
}

/// The credential a section carries: its name and its two key fields.
pub open spec fn cred_of(s: SectionV) -> CredentialV
    recommends
        extractable(s),
{
    CredentialV {
        profile_name: s.name,
        access_key: spec_get(s.entries, access_key_name())->Some_0,
        secret_key: spec_get(s.entries, secret_key_name())->Some_0,
    }
}

/// The raw capture sequence: the credentials of all extractable
/// sections, in file order, one per section. The executable extractor
/// collapses this by name, keeping the last capture of each.
pub open spec fn spec_extract(ss: Seq<SectionV>) -> Seq<CredentialV>
    decreases ss.len(),
{
    if ss.len() == 0 {
        Seq::empty()
    } else if extractable(ss.last()) {
        spec_extract(ss.drop_last()).push(cred_of(ss.last()))
    } else {
        spec_extract(ss.drop_last())
    }
}

/// The credential for `name`, the last captured one winning when a name
/// repeats, as when indexing by name into a map built front to back.
pub open spec fn spec_lookup(cs: Seq<CredentialV>, name: Seq<u8>) -> Option<CredentialV>
    decreases cs.len(),
{
    if cs.len() == 0 {
        None
    } else if cs.last().profile_name == name {
        Some(cs.last())
    } else {
        spec_lookup(cs.drop_last(), name)
    }
}

/// The credentials with every capture named `n` removed.
pub open spec fn remove_name(cs: Seq<CredentialV>, n: Seq<u8>) -> Seq<CredentialV>
    decreases cs.len(),
{
    if cs.len() == 0 {
        Seq::empty()
    } else if cs.last().profile_name == n {
        remove_name(cs.drop_last(), n)
    } else {
        remove_name(cs.drop_last(), n).push(cs.last())
    }
}

/// At most one credential per profile name: for a repeated name only the
/// last capture stays, at the place of its last appearance.
pub open spec fn spec_dedup(cs: Seq<CredentialV>) -> Seq<CredentialV>
    decreases cs.len(),
{
    if cs.len() == 0 {
        Seq::empty()
    } else {
        remove_name(spec_dedup(cs.drop_last()), cs.last().profile_name).push(cs.last())
    }
}

/// No two credentials share a profile name.
pub open spec fn distinct_profile_names(cs: Seq<CredentialV>) -> bool {
    forall|p: int, q: int|
        0 <= p < cs.len() && 0 <= q < cs.len() && p != q ==> #[trigger] cs[p].profile_name
            != #[trigger] cs[q].profile_name
}

/// Removing a name that no capture bears changes nothing.
pub proof fn lemma_remove_name_absent(cs: Seq<CredentialV>, n: Seq<u8>)
    requires
        forall|j: int| 0 <= j < cs.len() ==> (#[trigger] cs[j]).profile_name != n,
    ensures
        remove_name(cs, n) == cs,
    decreases cs.len(),
{
    if cs.len() > 0 {
        assert(cs[cs.len() - 1] == cs.last());
        assert(forall|j: int| 0 <= j < cs.drop_last().len() ==> cs.drop_last()[j] == cs[j]);
        lemma_remove_name_absent(cs.drop_last(), n);
        assert(remove_name(cs, n) =~= cs);
    }
}

/// Removing a name borne by exactly one capture removes exactly it.
pub proof fn lemma_remove_name_at(cs: Seq<CredentialV>, n: Seq<u8>, m: int)
    requires
        0 <= m < cs.len(),
        cs[m].profile_name == n,
        forall|j: int| 0 <= j < cs.len() && j != m ==> (#[trigger] cs[j]).profile_name != n,
    ensures
        remove_name(cs, n) == cs.remove(m),
    decreases cs.len(),
{
    assert(cs[cs.len() - 1] == cs.last());
    assert(forall|j: int| 0 <= j < cs.drop_last().len() ==> cs.drop_last()[j] == cs[j]);
    if m == cs.len() - 1 {
        lemma_remove_name_absent(cs.drop_last(), n);
        assert(remove_name(cs, n) =~= cs.remove(m));
    } else {
        lemma_remove_name_at(cs.drop_last(), n, m);
        assert(remove_name(cs, n) =~= cs.remove(m));
    }
}

/// Removal empties the removed name and keeps every other lookup.
pub proof fn lemma_remove_name_lookup(cs: Seq<CredentialV>, n: Seq<u8>, n2: Seq<u8>)
    ensures
        spec_lookup(remove_name(cs, n), n2) == (if n2 == n {
            None
        } else {
            spec_lookup(cs, n2)
        }),
    decreases cs.len(),
{
    if cs.len() > 0 {
        lemma_remove_name_lookup(cs.drop_last(), n, n2);
        if cs.last().profile_name != n {
            let rm = remove_name(cs, n);
            assert(rm.last() == cs.last());
            assert(rm.drop_last() =~= remove_name(cs.drop_last(), n));
        }
    }
}

/// Keeping only the last capture per name changes no lookup: the last one
/// already won.
pub proof fn lemma_dedup_lookup(cs: Seq<CredentialV>, n: Seq<u8>)
    ensures
        spec_lookup(spec_dedup(cs), n) == spec_lookup(cs, n),
    decreases cs.len(),
{
    if cs.len() > 0 {
        lemma_dedup_lookup(cs.drop_last(), n);
        let c = cs.last();
        let d = spec_dedup(cs);
        assert(d.last() == c);
        assert(d.drop_last() =~= remove_name(spec_dedup(cs.drop_last()), c.profile_name));
        if c.profile_name != n {
            lemma_remove_name_lookup(spec_dedup(cs.drop_last()), c.profile_name, n);
        }
    }
}

/// Collapsing by name changes a list that already has pairwise-distinct
/// names not at all.
pub proof fn lemma_dedup_of_distinct(cs: Seq<CredentialV>)
    requires
        distinct_profile_names(cs),
    ensures
        spec_dedup(cs) == cs,
    decreases cs.len(),
{
    if cs.len() > 0 {
        let front = cs.drop_last();
        assert(forall|j: int| 0 <= j < front.len() ==> front[j] == cs[j]);
        assert(cs[cs.len() - 1] == cs.last());
        assert forall|p: int, q: int|
            0 <= p < front.len() && 0 <= q < front.len() && p != q implies (
        #[trigger] front[p]).profile_name != (#[trigger] front[q]).profile_name by {
            assert(cs[p].profile_name != cs[q].profile_name);
        }
        lemma_dedup_of_distinct(front);
        assert forall|j: int| 0 <= j < front.len() implies (#[trigger] front[j]).profile_name
            != cs.last().profile_name by {
            assert(cs[j].profile_name != cs[cs.len() - 1].profile_name);
        }
        lemma_remove_name_absent(front, cs.last().profile_name);
        assert(spec_dedup(cs) =~= cs);
    }
}

/// Restoring from the deduplicated captures restores exactly what all of
/// them would.
pub proof fn lemma_restore_dedup(ss: Seq<SectionV>, cs: Seq<CredentialV>)
    ensures
        spec_restore(ss, spec_dedup(cs)) == spec_restore(ss, cs),
{
    assert forall|i: int| 0 <= i < ss.len() implies spec_restore(ss, spec_dedup(cs))[i]
        == spec_restore(ss, cs)[i] by {
        lemma_dedup_lookup(cs, ss[i].name);
    }
    assert(spec_restore(ss, spec_dedup(cs)) =~= spec_restore(ss, cs));
}

/// One section after restoration: a section that has an access-key field
/// and whose name matches a captured credential gets that credential's two
/// values; every other section is untouched.
pub open spec fn restore_section(s: SectionV, cs: Seq<CredentialV>) -> SectionV {
    if spec_get(s.entries, access_key_name()) is Some && spec_lookup(cs, s.name) is Some {
        let c = spec_lookup(cs, s.name)->Some_0;
        SectionV {
            name: s.name,
            entries: spec_set(
                spec_set(s.entries, access_key_name(), c.access_key),
                secret_key_name(),
                c.secret_key,
            ),
        }
    } else {
        s
    }
}

/// A whole file after restoration, section by section.
pub open spec fn spec_restore(ss: Seq<SectionV>, cs: Seq<CredentialV>) -> Seq<SectionV> {
    Seq::new(ss.len(), |i: int| restore_section(ss[i], cs))
}

/// A whole switch on the level of `credentials` files: the replacement's
/// file with the active file's captured credentials written back in.
pub open spec fn spec_switch(active: Seq<SectionV>, replacement: Seq<SectionV>) -> Seq<SectionV> {
    spec_restore(replacement, spec_extract(active))
}

/// Capture the credentials of every section that defines both an
/// access-key and a secret-key field; sections missing either are
/// skipped. A profile name uniquely identifies a credential, so the
/// result holds at most one record per name: when a name repeats, the
/// last qualifying section wins, as it does at restoration.
#[verifier::loop_isolation(false)]
pub fn extract_credentials(f: &IniFile) -> (r: Vec<Credential>)
    ensures
        creds_view(r@) == spec_dedup(spec_extract(f@)),
        distinct_profile_names(creds_view(r@)),
{
    let akb = access_key_bytes();
    let skb = secret_key_bytes();
    let mut out: Vec<Credential> = Vec::new();
    let mut i: usize = 0;
    proof {
        assert(f@.take(0) =~= Seq::<SectionV>::empty());
        assert(creds_view(out@) =~= spec_dedup(spec_extract(f@.take(0))));
    }
    while i < f.sections.len()
        invariant
            i <= f.sections.len(),
            creds_view(out@) == spec_dedup(spec_extract(f@.take(i as int))),
            distinct_profile_names(creds_view(out@)),
        decreases f.sections.len() - i,
    {
        proof {
            assert(f@[i as int] == f.sections@[i as int]@);
            assert(f@.take(i as int + 1).drop_last() =~= f@.take(i as int));
            assert(f@.take(i as int + 1).last() == f@[i as int]);
        }
        let ghost before = creds_view(out@);
        let ghost n = f@[i as int].name;
        let s = &f.sections[i];
        let access = s.get(&akb);
        let secret = s.get(&skb);
        match (access, secret) {
            (Some(a), Some(b)) => {
                // an earlier capture of this name gives way to this one
                let mut hit: Option<usize> = None;
                let mut k: usize = 0;
                proof {
                    assert(s.name@ == n);
                }
                while k < out.len()
                    invariant
                        k <= out.len(),
                        match hit {
                            Some(m) => m < k && before[m as int].profile_name == n,
                            None => forall|j: int|
                                0 <= j < k ==> (#[trigger] before[j]).profile_name != n,
                        },
                    decreases out.len() - k,
                {
                    if bytes_eq(&out[k].profile_name, &s.name) {
                        hit = Some(k);
                        proof {
                            assert(before[k as int].profile_name == n);
                        }
                    }
                    k = k + 1;
                }
                match hit {
                    Some(m) => {
                        proof {
                            assert forall|j: int|
                                0 <= j < before.len() && j != m implies (
                            #[trigger] before[j]).profile_name != n by {
                                assert(before[m as int].profile_name == n);
                            }
                            lemma_remove_name_at(before, n, m as int);
                        }
                        out.remove(m);
                        proof {
                            assert(creds_view(out@) =~= before.remove(m as int));
                            let mid = creds_view(out@);
                            assert forall|j: int| 0 <= j < mid.len() implies (
                            #[trigger] mid[j]).profile_name != n by {
                                if j < m {
                                    assert(mid[j] == before[j]);
                                } else {
                                    assert(mid[j] == before[j + 1]);
                                }
                            }
                            assert forall|p: int, q: int|
                                0 <= p < mid.len() && 0 <= q < mid.len() && p != q implies (
                            #[trigger] mid[p]).profile_name != (#[trigger] mid[q]).profile_name by {
                                let p0: int = if p < m {
                                    p
                                } else {
                                    p + 1
                                };
                                let q0: int = if q < m {
                                    q
                                } else {
                                    q + 1
                                };
                                assert(mid[p] == before[p0]);
                                assert(mid[q] == before[q0]);
                                assert(before[p0].profile_name != before[q0].profile_name);
                            }
                        }
                    },
                    None => {
                        proof {
                            lemma_remove_name_absent(before, n);
                        }
                    },
                }
                let ghost mid = creds_view(out@);
                proof {
                    assert(mid == remove_name(before, n));
                    assert(forall|j: int|
                        0 <= j < mid.len() ==> (#[trigger] mid[j]).profile_name != n);
                    assert(distinct_profile_names(mid));
                }
                out.push(
                    Credential {
                        profile_name: copy_bytes(&s.name),
                        access_key: copy_bytes(a),
                        secret_key: copy_bytes(b),
                    },
                );
                proof {
                    let now = creds_view(out@);
                    assert(now =~= mid.push(cred_of(f@[i as int])));
                    assert(cred_of(f@[i as int]).profile_name == n);
                    let e1 = spec_extract(f@.take(i as int + 1));
                    assert(e1.drop_last() =~= spec_extract(f@.take(i as int)));
                    assert(e1.last() == cred_of(f@[i as int]));
                    assert(spec_dedup(e1) == remove_name(before, n).push(cred_of(f@[i as int])));
                    assert forall|p: int, q: int|
                        0 <= p < now.len() && 0 <= q < now.len() && p != q implies (
                    #[trigger] now[p]).profile_name != (#[trigger] now[q]).profile_name by {
                        if p < mid.len() && q < mid.len() {
                            assert(now[p] == mid[p]);
                            assert(now[q] == mid[q]);
                            assert(mid[p].profile_name != mid[q].profile_name);
                        } else if p == mid.len() {
                            assert(now[q] == mid[q]);
                            assert(mid[q].profile_name != n);
                        } else {
                            assert(now[p] == mid[p]);
                            assert(mid[p].profile_name != n);
                        }
                    }
                }
            },
            _ => {
                proof {
                    assert(!extractable(f@[i as int]));
                    assert(spec_extract(f@.take(i as int + 1)) == spec_extract(f@.take(i as int)));
                }
            },
        }
        i = i + 1;
    }
    proof {
        assert(f@.take(f@.len() as int) =~= f@);
    }
    out
}

/// The captured credential whose name is `name`, the last one winning.
#[verifier::loop_isolation(false)]
pub fn lookup_credential<'a>(creds: &'a Vec<Credential>, name: &Vec<u8>) -> (r: Option<
    &'a Credential,
>)
    ensures
        match r {
            Some(c) => spec_lookup(creds_view(creds@), name@) == Some(c@),
            None => spec_lookup(creds_view(creds@), name@) is None,
        },
{
    let mut found: Option<usize> = None;
    let mut i: usize = 0;
    proof {
        assert(creds_view(creds@).take(0) =~= Seq::<CredentialV>::empty());
    }
    while i < creds.len()
        invariant
            i <= creds.len(),
            match found {
                Some(m) => 0 <= m < i && spec_lookup(creds_view(creds@).take(i as int), name@)
                    == Some(creds@[m as int]@),
                None => spec_lookup(creds_view(creds@).take(i as int), name@) is None,
            },
        decreases creds.len() - i,
    {
        proof {
            assert(creds_view(creds@).take(i as int + 1).drop_last() =~= creds_view(
                creds@,
            ).take(i as int));
            assert(creds_view(creds@).take(i as int + 1).last() == creds@[i as int]@);
        }
        if bytes_eq(&creds[i].profile_name, name) {
            found = Some(i);
        }
        i = i + 1;
    }
    proof {
        assert(creds_view(creds@).take(creds@.len() as int) =~= creds_view(creds@));
    }
    match found {
        Some(m) => Some(&creds[m]),
        None => None,
    }
}

/// A fresh copy of an entry list.
fn copy_entries(es: &Vec<Entry>) -> (r: Vec<Entry>)
    ensures
        entries_view(r@) == entries_view(es@),
{
    let mut r: Vec<Entry> = Vec::new();
    let mut i: usize = 0;
    while i < es.len()
        invariant
            i <= es.len(),
            r@.len() == i,
            forall|k: int| 0 <= k < i ==> r@[k]@ == es@[k]@,
        decreases es.len() - i,
    {
        r.push(Entry { key: copy_bytes(&es[i].key), value: copy_bytes(&es[i].value) });
        i = i + 1;
    }
    proof {
        assert(entries_view(r@) =~= entries_view(es@));
    }
    r
}

/// Write the captured credentials back into `f`: every section that has an
/// access-key field and whose name matches a captured credential gets that
/// credential's access key and secret key; all other sections, entries and
/// values are kept verbatim. With nothing captured this changes nothing.
#[verifier::loop_isolation(false)]
pub fn restore_credentials(f: &IniFile, creds: &Vec<Credential>) -> (r: IniFile)
    ensures
        r@ == spec_restore(f@, creds_view(creds@)),
{
    let akb = access_key_bytes();
    let skb = secret_key_bytes();
    let mut out: Vec<Section> = Vec::new();
    let mut i: usize = 0;
    while i < f.sections.len()
        invariant
            i <= f.sections.len(),
            out@.len() == i,
            forall|k: int|
                0 <= k < i ==> out@[k]@ == restore_section(f@[k], creds_view(creds@)),
        decreases f.sections.len() - i,
    {
        proof {
            assert(f@[i as int] == f.sections@[i as int]@);
        }
        let s = &f.sections[i];
        let has_access = match s.get(&akb) {
            Some(_) => true,
            None => false,
        };
        let mut new_sec = Section { name: copy_bytes(&s.name), entries: copy_entries(&s.entries) };
        if has_access {
            match lookup_credential(creds, &s.name) {
                Some(c) => {
                    let entries = new_sec.entries;
                    let e1 = crate::ini::set_entry(
                        entries,
                        copy_bytes(&akb),
                        copy_bytes(&c.access_key),
                    );
                    let e2 = crate::ini::set_entry(e1, copy_bytes(&skb), copy_bytes(&c.secret_key));
                    new_sec = Section { name: copy_bytes(&s.name), entries: e2 };
                    proof {
                        assert(new_sec@ =~= restore_section(f@[i as int], creds_view(creds@)));
                    }
                },
                None => {
                    proof {
                        assert(new_sec@ =~= restore_section(f@[i as int], creds_view(creds@)));
                    }
                },
            }
        } else {
            proof {
                assert(new_sec@ =~= restore_section(f@[i as int], creds_view(creds@)));
            }
        }
        out.push(new_sec);
        i = i + 1;
    }
    proof {
        assert(sections_view(out@) =~= spec_restore(f@, creds_view(creds@)));
    }
    IniFile { sections: out }
}

/// One whole switch on file contents: capture the active file's
/// credentials, then restore them into the replacement's file. The result
/// is what the new active `credentials` file must hold.
pub fn switch(active: &IniFile, replacement: &IniFile) -> (r: IniFile)
    ensures
        r@ == spec_switch(active@, replacement@),
{
    let creds = extract_credentials(active);
    let r = restore_credentials(replacement, &creds);
    proof {
        lemma_restore_dedup(replacement@, spec_extract(active@));
    }
    r
}

} // verus!
