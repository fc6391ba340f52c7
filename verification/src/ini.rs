//! The section/key=value model of a `credentials` file: an ordered list of
//! sections, each an ordered list of entries. The unnamed leading section is
//! the one whose name is empty.

use vstd::prelude::*;

verus! {

/// One `key = value` line.
pub struct Entry {
    pub key: Vec<u8>,
    pub value: Vec<u8>,
}

/// A `[name]` header with the entries below it. The unnamed leading section
/// has the empty name; a written header is never empty.
pub struct Section {
    pub name: Vec<u8>,
    pub entries: Vec<Entry>,
}

/// A whole configuration file, sections in file order.
pub struct IniFile {
    pub sections: Vec<Section>,
}

/// Mathematical value of an `Entry`.
#[verifier::ext_equal]
pub ghost struct EntryV {
    pub key: Seq<u8>,
    pub value: Seq<u8>,
}

/// Mathematical value of a `Section`.
#[verifier::ext_equal]
pub ghost struct SectionV {
    pub name: Seq<u8>,
    pub entries: Seq<EntryV>,
}

impl View for Entry {
    type V = EntryV;

    open spec fn view(&self) -> EntryV {
        EntryV { key: self.key@, value: self.value@ }
    }
}

/// The entry list as mathematical values.
pub open spec fn entries_view(es: Seq<Entry>) -> Seq<EntryV> {
    Seq::new(es.len(), |i: int| es[i]@)
}

impl View for Section {
    type V = SectionV;

    open spec fn view(&self) -> SectionV {
        SectionV { name: self.name@, entries: entries_view(self.entries@) }
    }
}

/// The section list as mathematical values.
pub open spec fn sections_view(ss: Seq<Section>) -> Seq<SectionV> {
    Seq::new(ss.len(), |i: int| ss[i]@)
}

impl View for IniFile {
    type V = Seq<SectionV>;

    open spec fn view(&self) -> Seq<SectionV> {
        sections_view(self.sections@)
    }
}

/// Value of the first entry whose key is `k`, if any: the field named `k`.
pub open spec fn spec_get(entries: Seq<EntryV>, k: Seq<u8>) -> Option<Seq<u8>>
    decreases entries.len(),
{
    if entries.len() == 0 {
        None
    } else if entries[0].key == k {
        Some(entries[0].value)
    } else {
        spec_get(entries.drop_first(), k)
    }
}

/// The entries with the field named `k` set to `v`: the first entry with key
/// `k` gets value `v`; when no entry has key `k`, one is appended.
pub open spec fn spec_set(entries: Seq<EntryV>, k: Seq<u8>, v: Seq<u8>) -> Seq<EntryV>
    decreases entries.len(),
{
    if entries.len() == 0 {
        seq![EntryV { key: k, value: v }]
    } else if entries[0].key == k {
        seq![EntryV { key: k, value: v }] + entries.drop_first()
    } else {
        seq![entries[0]] + spec_set(entries.drop_first(), k, v)
    }
}

/// After setting `k` to `v`, the field named `k` reads `v`.
pub proof fn lemma_get_set_same(entries: Seq<EntryV>, k: Seq<u8>, v: Seq<u8>)
    ensures
        spec_get(spec_set(entries, k, v), k) == Some(v),
    decreases entries.len(),
{
    if entries.len() == 0 {
    } else if entries[0].key == k {
        assert(spec_set(entries, k, v)[0] == EntryV { key: k, value: v });
    } else {
        lemma_get_set_same(entries.drop_first(), k, v);
        assert(spec_set(entries, k, v)[0] == entries[0]);
        assert(spec_set(entries, k, v).drop_first() =~= spec_set(entries.drop_first(), k, v));
    }
}

/// Setting `k` leaves every other field unchanged.
pub proof fn lemma_get_set_other(entries: Seq<EntryV>, k: Seq<u8>, v: Seq<u8>, k2: Seq<u8>)
    requires
        k2 != k,
    ensures
        spec_get(spec_set(entries, k, v), k2) == spec_get(entries, k2),
    decreases entries.len(),
{
    if entries.len() == 0 {
        assert(spec_set(entries, k, v)[0] == EntryV { key: k, value: v });
        assert(spec_set(entries, k, v).drop_first() =~= entries);
    } else if entries[0].key == k {
        assert(spec_set(entries, k, v)[0] == EntryV { key: k, value: v });
        assert(spec_set(entries, k, v).drop_first() =~= entries.drop_first());
    } else {
        lemma_get_set_other(entries.drop_first(), k, v, k2);
        assert(spec_set(entries, k, v)[0] == entries[0]);
        assert(spec_set(entries, k, v).drop_first() =~= spec_set(entries.drop_first(), k, v));
    }
}

/// `spec_get` finds the first entry with the key, or nothing when no entry
/// has it.
pub proof fn lemma_spec_get(entries: Seq<EntryV>, k: Seq<u8>)
    ensures
        match spec_get(entries, k) {
            Some(v) => exists|i: int|
                0 <= i < entries.len() && entries[i].key == k && entries[i].value == v && (
                forall|j: int| 0 <= j < i ==> entries[j].key != k),
            None => forall|j: int| 0 <= j < entries.len() ==> entries[j].key != k,
        },
    decreases entries.len(),
{
    if entries.len() > 0 && entries[0].key != k {
        lemma_spec_get(entries.drop_first(), k);
        assert forall|j: int| 1 <= j < entries.len() implies entries[j] == entries.drop_first()[j
            - 1] by {}
        match spec_get(entries.drop_first(), k) {
            Some(v) => {
                let i = choose|i: int|
                    0 <= i < entries.drop_first().len() && entries.drop_first()[i].key == k
                        && entries.drop_first()[i].value == v && (forall|j: int|
                        0 <= j < i ==> entries.drop_first()[j].key != k);
                assert(entries[i + 1].key == k && entries[i + 1].value == v);
                assert(forall|j: int| 0 <= j < i + 1 ==> entries[j].key != k);
            },
            None => {},
        }
    }
}

impl Section {
    /// The value of the field named `key`, if the section has it.
    pub fn get(&self, key: &Vec<u8>) -> (r: Option<&Vec<u8>>)
        ensures
            match r {
                Some(v) => spec_get(self@.entries, key@) == Some(v@),
                None => spec_get(self@.entries, key@) is None,
            },
    {
        let mut i: usize = 0;
        while i < self.entries.len()
            invariant
                i <= self.entries.len(),
                forall|j: int| 0 <= j < i ==> self@.entries[j].key != key@,
            decreases self.entries.len() - i,
        {
            if crate::text::bytes_eq(&self.entries[i].key, key) {
                proof {
                    assert(self@.entries[i as int].key == key@);
                    lemma_spec_get(self@.entries, key@);
                    match spec_get(self@.entries, key@) {
                        Some(v) => {
                            let m = choose|m: int|
                                0 <= m < self@.entries.len() && self@.entries[m].key == key@
                                    && self@.entries[m].value == v && (forall|j: int|
                                    0 <= j < m ==> self@.entries[j].key != key@);
                            if m < i {
                                assert(self@.entries[m].key != key@);
                            }
                            if i < m {
                                assert(self@.entries[i as int].key != key@);
                            }
                            assert(m == i);
                        },
                        None => {
                            assert(self@.entries[i as int].key != key@);
                        },
                    }
                }
                return Some(&self.entries[i].value);
            }
            i = i + 1;
        }
        proof {
            lemma_spec_get(self@.entries, key@);
            match spec_get(self@.entries, key@) {
                Some(v) => {
                    let m = choose|m: int|
                        0 <= m < self@.entries.len() && self@.entries[m].key == key@
                            && self@.entries[m].value == v && (forall|j: int|
                            0 <= j < m ==> self@.entries[j].key != key@);
                    assert(self@.entries[m].key != key@);
                },
                None => {},
            }
        }
        None
    }
}

/// `spec_set` at an existing first occurrence is a point update.
pub proof fn lemma_set_is_update(entries: Seq<EntryV>, k: Seq<u8>, v: Seq<u8>, i: int)
    requires
        0 <= i < entries.len(),
        entries[i].key == k,
        forall|j: int| 0 <= j < i ==> entries[j].key != k,
    ensures
        spec_set(entries, k, v) == entries.update(i, EntryV { key: k, value: v }),
    decreases entries.len(),
{
    if i == 0 {
        assert(spec_set(entries, k, v) =~= entries.update(0, EntryV { key: k, value: v }));
    } else {
        assert forall|j: int| 1 <= j < entries.len() implies entries[j] == entries.drop_first()[j
            - 1] by {}
        lemma_set_is_update(entries.drop_first(), k, v, i - 1);
        assert(spec_set(entries, k, v) =~= entries.update(i, EntryV { key: k, value: v }));
    }
}

/// `spec_set` with a key no entry has appends one entry.
pub proof fn lemma_set_is_push(entries: Seq<EntryV>, k: Seq<u8>, v: Seq<u8>)
    requires
        forall|j: int| 0 <= j < entries.len() ==> entries[j].key != k,
    ensures
        spec_set(entries, k, v) == entries.push(EntryV { key: k, value: v }),
    decreases entries.len(),
{
    if entries.len() == 0 {
        assert(spec_set(entries, k, v) =~= entries.push(EntryV { key: k, value: v }));
    } else {
        assert forall|j: int| 1 <= j < entries.len() implies entries[j] == entries.drop_first()[j
            - 1] by {}
        lemma_set_is_push(entries.drop_first(), k, v);
        assert(spec_set(entries, k, v) =~= entries.push(EntryV { key: k, value: v }));
    }
}

/// `entries` with the field named `key` set to `value`.
#[verifier::loop_isolation(false)]
pub fn set_entry(entries: Vec<Entry>, key: Vec<u8>, value: Vec<u8>) -> (r: Vec<Entry>)
    ensures
        entries_view(r@) == spec_set(entries_view(entries@), key@, value@),
{
    let ghost evs = entries_view(entries@);
    let mut out = entries;
    let mut i: usize = 0;
    while i < out.len()
        invariant
            i <= out.len(),
            evs == entries_view(out@),
            forall|j: int| 0 <= j < i ==> evs[j].key != key@,
        decreases out.len() - i,
    {
        if crate::text::bytes_eq(&out[i].key, &key) {
            proof {
                assert(evs[i as int].key == key@);
                lemma_set_is_update(evs, key@, value@, i as int);
            }
            out.set(i, Entry { key, value });
            proof {
                assert(entries_view(out@) =~= evs.update(
                    i as int,
                    EntryV { key: key@, value: value@ },
                ));
            }
            return out;
        }
        i = i + 1;
    }
    proof {
        lemma_set_is_push(evs, key@, value@);
    }
    out.push(Entry { key, value });
    proof {
        assert(entries_view(out@) =~= evs.push(EntryV { key: key@, value: value@ }));
    }
    out
}

} // verus!
