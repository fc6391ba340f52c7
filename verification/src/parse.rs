//! Parsing of section/key=value text into the model. The input splits into
//! lines at each newline byte; every line, after trimming, is blank, a
//! comment, a `[name]` header or a `key = value` pair, and anything else
//! refuses the whole file.

use crate::ini::{Entry, EntryV, IniFile, Section, SectionV, entries_view, sections_view};
use crate::text::{spec_find, spec_trim, find_byte, subvec, trim_bytes};
use crate::SwitchError;
use vstd::prelude::*;

verus! {

/// The lines of `s`: maximal runs between newline bytes. A trailing newline
/// yields a final empty line; the empty input is one empty line.
pub open spec fn spec_lines(s: Seq<u8>) -> Seq<Seq<u8>>
    decreases s.len(),
{
    if s.len() == 0 {
        seq![Seq::<u8>::empty()]
    } else if s[0] == 10 {
        seq![Seq::<u8>::empty()] + spec_lines(s.drop_first())
    } else {
        let rest = spec_lines(s.drop_first());
        seq![seq![s[0]] + rest[0]] + rest.drop_first()
    }
}

/// Splitting always yields at least one line.
pub proof fn lemma_lines_nonempty(s: Seq<u8>)
    ensures
        spec_lines(s).len() >= 1,
    decreases s.len(),
{
    if s.len() > 0 {
        lemma_lines_nonempty(s.drop_first());
    }
}

/// The line list with `p` glued onto the front of its first line.
pub open spec fn prepend_first(p: Seq<u8>, ls: Seq<Seq<u8>>) -> Seq<Seq<u8>>
    recommends
        ls.len() >= 1,
{
    seq![p + ls[0]] + ls.drop_first()
}

/// The line vector as mathematical values.
pub open spec fn lines_view(ls: Seq<Vec<u8>>) -> Seq<Seq<u8>> {
    Seq::new(ls.len(), |i: int| ls[i]@)
}

/// The input split at newline bytes.
#[verifier::loop_isolation(false)]
pub fn split_lines(input: &Vec<u8>) -> (r: Vec<Vec<u8>>)
    ensures
        lines_view(r@) == spec_lines(input@),
{
    let mut lines: Vec<Vec<u8>> = Vec::new();
    let mut cur: Vec<u8> = Vec::new();
    let mut i: usize = 0;
    proof {
        lemma_lines_nonempty(input@);
        assert(input@.skip(0) =~= input@);
        assert(lines_view(lines@) + prepend_first(cur@, spec_lines(input@.skip(0))) =~~= spec_lines(
            input@,
        ));
    }
    while i < input.len()
        invariant
            i <= input.len(),
            spec_lines(input@.skip(i as int)).len() >= 1,
            lines_view(lines@) + prepend_first(cur@, spec_lines(input@.skip(i as int)))
                == spec_lines(input@),
        decreases input.len() - i,
    {
        let ghost rem = input@.skip(i as int);
        let ghost rem2 = input@.skip(i as int + 1);
        proof {
            lemma_lines_nonempty(rem2);
            assert(rem.len() > 0);
            assert(rem[0] == input@[i as int]);
            assert(rem.drop_first() =~= rem2);
        }
        let c = input[i];
        if c == 10 {
            proof {
                assert(spec_lines(rem) =~~= seq![Seq::<u8>::empty()] + spec_lines(rem2));
            }
            let ghost old_lines = lines@;
            let ghost old_cur = cur@;
            lines.push(cur);
            cur = Vec::new();
            proof {
                assert(lines_view(lines@) =~~= lines_view(old_lines).push(old_cur));
                assert(prepend_first(old_cur, spec_lines(rem))[0] =~= old_cur);
                assert(lines_view(lines@) + prepend_first(cur@, spec_lines(rem2)) =~~= lines_view(
                    old_lines,
                ) + prepend_first(old_cur, spec_lines(rem)));
            }
        } else {
            let ghost old_cur = cur@;
            cur.push(c);
            proof {
                let rest = spec_lines(rem2);
                assert(spec_lines(rem) =~~= seq![seq![input@[i as int]] + rest[0]]
                    + rest.drop_first());
                assert(prepend_first(cur@, rest) =~~= prepend_first(old_cur, spec_lines(rem)));
                assert(lines_view(lines@) + prepend_first(cur@, rest) =~~= lines_view(lines@)
                    + prepend_first(old_cur, spec_lines(rem)));
            }
        }
        i = i + 1;
    }
    proof {
        assert(input@.skip(input@.len() as int) =~= Seq::<u8>::empty());
        assert(spec_lines(input@.skip(i as int)) =~~= seq![Seq::<u8>::empty()]);
        assert(prepend_first(cur@, seq![Seq::<u8>::empty()])[0] =~= cur@);
    }
    let ghost old_lines = lines@;
    let ghost old_cur = cur@;
    lines.push(cur);
    proof {
        assert(lines_view(lines@) =~~= lines_view(old_lines).push(old_cur));
        assert(lines_view(lines@) =~~= spec_lines(input@));
    }
    lines
}

/// What one line means.
#[verifier::ext_equal]
pub ghost enum LineV {
    /// Empty after trimming, or a `;` / `#` comment.
    Blank,
    /// `[name]` with a non-empty trimmed name.
    Header { name: Seq<u8> },
    /// `key = value` with a non-empty trimmed key.
    Pair { key: Seq<u8>, value: Seq<u8> },
    /// Anything else: the file is not section/key=value text.
    Bad,
}

/// Exec carrier of a classified line.
pub enum LineKind {
    Blank,
    Header { name: Vec<u8> },
    Pair { key: Vec<u8>, value: Vec<u8> },
    Bad,
}

impl View for LineKind {
    type V = LineV;

    open spec fn view(&self) -> LineV {
        match self {
            LineKind::Blank => LineV::Blank,
            LineKind::Header { name } => LineV::Header { name: name@ },
            LineKind::Pair { key, value } => LineV::Pair { key: key@, value: value@ },
            LineKind::Bad => LineV::Bad,
        }
    }
}

/// The meaning of one raw line. Bytes 59, 35, 91, 93 and 61 are
/// `;`, `#`, `[`, `]` and `=`.
pub open spec fn spec_classify(line: Seq<u8>) -> LineV {
    let t = spec_trim(line);
    if t.len() == 0 || t[0] == 59 || t[0] == 35 {
        LineV::Blank
    } else if t[0] == 91 {
        if t.len() >= 2 && t.last() == 93 {
            let name = spec_trim(t.subrange(1, t.len() - 1));
            if name.len() == 0 {
                LineV::Bad
            } else {
                LineV::Header { name }
            }
        } else {
            LineV::Bad
        }
    } else {
        match spec_find(t, 61) {
            Some(e) => {
                let key = spec_trim(t.subrange(0, e));
                let value = spec_trim(t.subrange(e + 1, t.len() as int));
                if key.len() == 0 {
                    LineV::Bad
                } else {
                    LineV::Pair { key, value }
                }
            },
            None => LineV::Bad,
        }
    }
}

/// Classify one raw line.
pub fn classify_line(line: &Vec<u8>) -> (r: LineKind)
    ensures
        r@ == spec_classify(line@),
{
    let t = trim_bytes(line);
    if t.len() == 0 {
        return LineKind::Blank;
    }
    let c0 = t[0];
    if c0 == 59 || c0 == 35 {
        return LineKind::Blank;
    }
    if c0 == 91 {
        if t.len() >= 2 && t[t.len() - 1] == 93 {
            proof {
                assert(spec_trim(line@).last() == 93);
            }
            let inner = subvec(&t, 1, t.len() - 1);
            let name = trim_bytes(&inner);
            if name.len() == 0 {
                LineKind::Bad
            } else {
                LineKind::Header { name }
            }
        } else {
            LineKind::Bad
        }
    } else {
        match find_byte(&t, 61) {
            Some(e) => {
                let keyraw = subvec(&t, 0, e);
                let key = trim_bytes(&keyraw);
                if key.len() == 0 {
                    LineKind::Bad
                } else {
                    let valraw = subvec(&t, e + 1, t.len());
                    let value = trim_bytes(&valraw);
                    LineKind::Pair { key, value }
                }
            },
            None => LineKind::Bad,
        }
    }
}

/// `done` with `cur` appended, unless `cur` is the still-empty unnamed
/// leading section, which only exists once it holds an entry.
pub open spec fn close_section(done: Seq<SectionV>, cur: SectionV) -> Seq<SectionV> {
    if cur.name.len() == 0 && cur.entries.len() == 0 {
        done
    } else {
        done.push(cur)
    }
}

/// Folding the classified lines into sections, from the state `done` (the
/// finished sections) and `cur` (the section still being filled).
pub open spec fn spec_fold(lines: Seq<Seq<u8>>, done: Seq<SectionV>, cur: SectionV) -> Option<
    Seq<SectionV>,
>
    decreases lines.len(),
{
    if lines.len() == 0 {
        Some(close_section(done, cur))
    } else {
        match spec_classify(lines[0]) {
            LineV::Blank => spec_fold(lines.drop_first(), done, cur),
            LineV::Header { name } => spec_fold(
                lines.drop_first(),
                close_section(done, cur),
                SectionV { name, entries: Seq::empty() },
            ),
            LineV::Pair { key, value } => spec_fold(
                lines.drop_first(),
                done,
                SectionV { name: cur.name, entries: cur.entries.push(EntryV { key, value }) },
            ),
            LineV::Bad => None,
        }
    }
}

/// The sections of the file `s`, or nothing when some line is bad.
pub open spec fn spec_parse(s: Seq<u8>) -> Option<Seq<SectionV>> {
    spec_fold(
        spec_lines(s),
        Seq::empty(),
        SectionV { name: Seq::empty(), entries: Seq::empty() },
    )
}

/// Parse a whole `credentials` file. Succeeds exactly on inputs whose every
/// line is blank, a comment, a header or a pair.
#[verifier::loop_isolation(false)]
pub fn parse_ini(input: &Vec<u8>) -> (r: Result<IniFile, SwitchError>)
    ensures
        match r {
            Ok(f) => spec_parse(input@) == Some(f@),
            Err(e) => spec_parse(input@) is None && e == SwitchError::ParseError,
        },
{
    let lines = split_lines(input);
    let mut done: Vec<Section> = Vec::new();
    let mut cur = Section { name: Vec::new(), entries: Vec::new() };
    let mut i: usize = 0;
    proof {
        assert(lines_view(lines@).skip(0) =~~= lines_view(lines@));
        assert(sections_view(done@) =~= Seq::<SectionV>::empty());
        assert(cur@ =~= SectionV { name: Seq::empty(), entries: Seq::empty() });
    }
    while i < lines.len()
        invariant
            i <= lines.len(),
            spec_fold(lines_view(lines@).skip(i as int), sections_view(done@), cur@) == spec_parse(
                input@,
            ),
        decreases lines.len() - i,
    {
        let ghost pre = lines_view(lines@).skip(i as int);
        proof {
            assert(pre[0] == lines@[i as int]@);
            assert(pre.drop_first() =~~= lines_view(lines@).skip(i as int + 1));
        }
        let kind = classify_line(&lines[i]);
        match kind {
            LineKind::Blank => {},
            LineKind::Header { name } => {
                let ghost old_done = sections_view(done@);
                let ghost old_cur = cur@;
                if cur.name.len() > 0 || cur.entries.len() > 0 {
                    done.push(cur);
                    proof {
                        assert(sections_view(done@) =~= old_done.push(old_cur));
                    }
                }
                proof {
                    assert(sections_view(done@) == close_section(old_done, old_cur));
                }
                cur = Section { name, entries: Vec::new() };
                proof {
                    assert(cur@ =~= SectionV { name: cur@.name, entries: Seq::empty() });
                }
            },
            LineKind::Pair { key, value } => {
                let ghost old_cur = cur@;
                let ghost kv = key@;
                let ghost vv = value@;
                cur.entries.push(Entry { key, value });
                proof {
                    assert(cur@ =~= SectionV {
                        name: old_cur.name,
                        entries: old_cur.entries.push(EntryV { key: kv, value: vv }),
                    });
                }
            },
            LineKind::Bad => {
                return Err(SwitchError::ParseError);
            },
        }
        i = i + 1;
    }
    proof {
        assert(lines_view(lines@).skip(i as int) =~~= Seq::<Seq<u8>>::empty());
    }
    let ghost old_done = sections_view(done@);
    let ghost old_cur = cur@;
    if cur.name.len() > 0 || cur.entries.len() > 0 {
        done.push(cur);
        proof {
            assert(sections_view(done@) =~= old_done.push(old_cur));
        }
    }
    proof {
        assert(sections_view(done@) == close_section(old_done, old_cur));
    }
    Ok(IniFile { sections: done })
}

} // verus!
