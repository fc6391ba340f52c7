//! Writing the model back to bytes: a `[name]` header line for every named
//! section, then one `key=value` line per entry, each line ending in a
//! newline byte.

use crate::ini::{EntryV, IniFile, SectionV};
use vstd::prelude::*;

verus! {

/// The bytes of one entry line: `key=value` and a newline.
pub open spec fn render_entry(e: EntryV) -> Seq<u8> {
    e.key + seq![61u8] + e.value + seq![10u8]
}

/// The entry lines of a section, in order.
pub open spec fn render_entries(es: Seq<EntryV>) -> Seq<u8>
    decreases es.len(),
{
    if es.len() == 0 {
        Seq::empty()
    } else {
        render_entries(es.drop_last()) + render_entry(es.last())
    }
}

/// The header line `[name]`, or nothing for the unnamed leading section.
pub open spec fn render_header(name: Seq<u8>) -> Seq<u8> {
    if name.len() == 0 {
        Seq::empty()
    } else {
        seq![91u8] + name + seq![93u8, 10u8]
    }
}

/// The bytes of one section.
pub open spec fn render_section(s: SectionV) -> Seq<u8> {
    render_header(s.name) + render_entries(s.entries)
}

/// The bytes of a whole file, sections in order.
pub open spec fn spec_write(ss: Seq<SectionV>) -> Seq<u8>
    decreases ss.len(),
{
    if ss.len() == 0 {
        Seq::empty()
    } else {
        spec_write(ss.drop_last()) + render_section(ss.last())
    }
}

/// Append all of `v` to `out`.
fn push_bytes(out: &mut Vec<u8>, v: &Vec<u8>)
    ensures
        final(out)@ == old(out)@ + v@,
{
    let mut i: usize = 0;
    while i < v.len()
        invariant
            i <= v.len(),
            out@ == old(out)@ + v@.subrange(0, i as int),
        decreases v.len() - i,
    {
        out.push(v[i]);
        i = i + 1;
        proof {
            assert(old(out)@ + v@.subrange(0, i - 1) + seq![v@[i - 1]] =~= old(out)@ + v@.subrange(
                0,
                i as int,
            ));
        }
    }
    proof {
        assert(old(out)@ + v@.subrange(0, v@.len() as int) =~= old(out)@ + v@);
    }
}

/// Serialize a whole file.
#[verifier::loop_isolation(false)]
pub fn write_ini(f: &IniFile) -> (r: Vec<u8>)
    ensures
        r@ == spec_write(f@),
{
    let mut out: Vec<u8> = Vec::new();
    let mut i: usize = 0;
    proof {
        assert(out@ =~= spec_write(f@.take(0)));
    }
    while i < f.sections.len()
        invariant
            i <= f.sections.len(),
            out@ == spec_write(f@.take(i as int)),
        decreases f.sections.len() - i,
    {
        proof {
            assert(f@[i as int] == f.sections@[i as int]@);
        }
        let ghost base = out@ + render_header(f@[i as int].name);
        if f.sections[i].name.len() > 0 {
            let ghost start = out@;
            out.push(91);
            push_bytes(&mut out, &f.sections[i].name);
            out.push(93);
            out.push(10);
            proof {
                assert(out@ =~= start + render_header(f@[i as int].name));
            }
        } else {
            proof {
                assert(out@ =~= base);
            }
        }
        let mut j: usize = 0;
        proof {
            assert(out@ =~= base + render_entries(f@[i as int].entries.take(0)));
        }
        while j < f.sections[i].entries.len()
            invariant
                j <= f.sections@[i as int].entries@.len(),
                out@ == base + render_entries(f@[i as int].entries.take(j as int)),
            decreases f.sections@[i as int].entries@.len() - j,
        {
            let ghost estart = out@;
            let ghost ev = f@[i as int].entries[j as int];
            proof {
                assert(ev == f.sections@[i as int].entries@[j as int]@);
            }
            push_bytes(&mut out, &f.sections[i].entries[j].key);
            out.push(61);
            push_bytes(&mut out, &f.sections[i].entries[j].value);
            out.push(10);
            j = j + 1;
            proof {
                assert(out@ =~= estart + render_entry(ev));
                let es = f@[i as int].entries;
                assert(es.take(j as int).drop_last() =~= es.take(j - 1));
                assert(es.take(j as int).last() == ev);
                assert(out@ =~= base + render_entries(es.take(j as int)));
            }
        }
        i = i + 1;
        proof {
            let es = f@[i - 1].entries;
            assert(es.take(es.len() as int) =~= es);
            assert(f@.take(i as int).drop_last() =~= f@.take(i - 1));
            assert(f@.take(i as int).last() == f@[i - 1]);
            assert(out@ =~= spec_write(f@.take(i as int)));
        }
    }
    proof {
        assert(f@.take(f@.len() as int) =~= f@);
    }
    out
}

} // verus!
