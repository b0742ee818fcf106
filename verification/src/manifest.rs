//! The manifest store: the `relative_path|hex_digest` line format that is
//! persisted as `checksums.txt`, its parser, the lexicographic order entries
//! are written in, and the round-trip and determinism laws that hold of them.

use vstd::prelude::*;

verus! {

use crate::text::{
    chars_of, find_char, find_from, lemma_find_char, lex_le, lex_le_exec, string_from_chars,
};
use vstd::multiset::Multiset;
use vstd::slice::slice_subrange;
use vstd::string::StringExecFns;

broadcast use vstd::seq_lib::group_to_multiset_ensures, vstd::multiset::group_multiset_axioms;

/// The name of the manifest file kept at the installation root.
pub const MANIFEST_FILE_NAME: &'static str = "checksums.txt";

/// One verified file: its path relative to the installation root, and the
/// lowercase-hex digest of its content.
#[derive(Debug)]
pub struct FileEntry {
    pub relative_path: String,
    pub digest: String,
}

impl View for FileEntry {
    type V = (Seq<char>, Seq<char>);

    open spec fn view(&self) -> (Seq<char>, Seq<char>) {
        (self.relative_path@, self.digest@)
    }
}

/// The views of a sequence of entries.
pub open spec fn views_of(es: Seq<FileEntry>) -> Seq<(Seq<char>, Seq<char>)> {
    es.map_values(|e: FileEntry| e@)
}

/// An entry that the line format can carry and recover: the path holds
/// neither a line break nor the column delimiter, and the digest holds no
/// line break.
pub open spec fn entry_wf(e: (Seq<char>, Seq<char>)) -> bool {
    &&& !e.0.contains('\n')
    &&& !e.0.contains('\r')
    &&& !e.0.contains('|')
    &&& !e.1.contains('\n')
    &&& !e.1.contains('\r')
}

/// All entries of a sequence are well-formed.
pub open spec fn entries_wf(es: Seq<(Seq<char>, Seq<char>)>) -> bool {
    forall|i: int| 0 <= i < es.len() ==> entry_wf(#[trigger] es[i])
}

/// The manifest line for one entry.
pub open spec fn line_of(e: (Seq<char>, Seq<char>)) -> Seq<char> {
    e.0 + seq!['|'] + e.1
}

/// Entries serialized as `path|digest` lines joined by a line feed, in the
/// order given.
pub open spec fn serialize_entries(es: Seq<(Seq<char>, Seq<char>)>) -> Seq<char>
    decreases es.len(),
{
    if es.len() == 0 {
        Seq::empty()
    } else if es.len() == 1 {
        line_of(es[0])
    } else {
        line_of(es[0]) + seq!['\n'] + serialize_entries(es.drop_first())
    }
}

/// `s` with every carriage return removed.
pub open spec fn strip_cr(s: Seq<char>) -> Seq<char>
    decreases s.len(),
{
    if s.len() == 0 {
        s
    } else if s[0] == '\r' {
        strip_cr(s.drop_first())
    } else {
        seq![s[0]] + strip_cr(s.drop_first())
    }
}

/// `s` split at every line feed. A sequence without one is a single line;
/// each line feed ends a line, and what follows the last one is a final
/// (possibly empty) line.
pub open spec fn lines_of(s: Seq<char>) -> Seq<Seq<char>>
    decreases s.len(),
    via lines_of_decreases
{
    let f = find_char(s, '\n');
    if f == -1 {
        seq![s]
    } else {
        seq![s.take(f)] + lines_of(s.skip(f + 1))
    }
}

#[via_fn]
proof fn lines_of_decreases(s: Seq<char>) {
    lemma_find_char(s, '\n');
}

/// A line split at its first delimiter into path and digest; a line without
/// a delimiter carries no entry.
pub open spec fn parse_line(l: Seq<char>) -> Option<(Seq<char>, Seq<char>)> {
    let f = find_char(l, '|');
    if f == -1 {
        None
    } else {
        Some((l.take(f), l.skip(f + 1)))
    }
}

/// The entries of a sequence of lines; lines without a delimiter are
/// dropped.
pub open spec fn parse_lines(ls: Seq<Seq<char>>) -> Seq<(Seq<char>, Seq<char>)>
    decreases ls.len(),
{
    if ls.len() == 0 {
        Seq::empty()
    } else {
        match parse_line(ls[0]) {
            Some(e) => seq![e] + parse_lines(ls.drop_first()),
            None => parse_lines(ls.drop_first()),
        }
    }
}

/// What parsing a manifest text yields: carriage returns are dropped first,
/// the text is split into lines, and each line with a delimiter becomes an
/// entry.
pub open spec fn parse_manifest_spec(s: Seq<char>) -> Seq<(Seq<char>, Seq<char>)> {
    parse_lines(lines_of(strip_cr(s)))
}

proof fn lemma_serialize_push(vs: Seq<(Seq<char>, Seq<char>)>, v: (Seq<char>, Seq<char>))
    ensures
        serialize_entries(vs.push(v)) == if vs.len() == 0 {
            line_of(v)
        } else {
            serialize_entries(vs) + seq!['\n'] + line_of(v)
        },
    decreases vs.len(),
{
    if vs.len() == 0 {
        assert(vs.push(v)[0] == v);
        assert(serialize_entries(vs.push(v)) == line_of(v));
    } else {
        assert(vs.push(v).drop_first() =~= vs.drop_first().push(v));
        lemma_serialize_push(vs.drop_first(), v);
        if vs.len() == 1 {
            assert(serialize_entries(vs.push(v)) == line_of(vs[0]) + seq!['\n'] + line_of(v));
            assert(serialize_entries(vs) == line_of(vs[0]));
        } else {
            assert(serialize_entries(vs.push(v)) == line_of(vs[0]) + seq!['\n'] + (
            serialize_entries(vs.drop_first()) + seq!['\n'] + line_of(v)));
            assert(serialize_entries(vs) + seq!['\n'] + line_of(v) =~= line_of(vs[0]) + seq!['\n']
                + (serialize_entries(vs.drop_first()) + seq!['\n'] + line_of(v)));
        }
    }
}

pub proof fn lemma_views_push(es: Seq<FileEntry>, e: FileEntry)
    ensures
        views_of(es.push(e)) == views_of(es).push(e@),
{
    let l = views_of(es.push(e));
    let r = views_of(es).push(e@);
    assert forall|i: int| 0 <= i < l.len() implies l[i] == r[i] by {
        if i < es.len() {
            assert(es.push(e)[i] == es[i]);
        } else {
            assert(es.push(e)[i] == e);
        }
    }
    assert(l =~= r);
}

/// Serialize entries in the order given, one `path|digest` line each, lines
/// joined by a line feed.
pub fn serialize_manifest(entries: &Vec<FileEntry>) -> (r: String)
    ensures
        r@ == serialize_entries(views_of(entries@)),
{
    let n = entries.len();
    let mut r = String::new();
    let mut i: usize = 0;
    while i < n
        invariant
            i <= n,
            n == entries@.len(),
            r@ == serialize_entries(views_of(entries@.subrange(0, i as int))),
        decreases n - i,
    {
        if i > 0 {
            r.push('\n');
        }
        r.append(entries[i].relative_path.as_str());
        r.push('|');
        r.append(entries[i].digest.as_str());
        proof {
            let vs = views_of(entries@.subrange(0, i as int));
            lemma_serialize_push(vs, entries@[i as int]@);
            assert(entries@.subrange(0, i as int).push(entries@[i as int]) =~= entries@.subrange(
                0,
                i + 1,
            ));
            lemma_views_push(entries@.subrange(0, i as int), entries@[i as int]);
            assert(vs.len() == 0 ==> i == 0);
            if i > 0 {
                assert(r@ =~= serialize_entries(vs) + seq!['\n'] + line_of(entries@[i as int]@));
            } else {
                assert(r@ =~= line_of(entries@[i as int]@));
            }
        }
        i = i + 1;
    }
    proof {
        assert(entries@.subrange(0, n as int) =~= entries@);
    }
    r
}

proof fn lemma_strip_cr_push(s: Seq<char>, c: char)
    ensures
        strip_cr(s.push(c)) == if c == '\r' {
            strip_cr(s)
        } else {
            strip_cr(s).push(c)
        },
    decreases s.len(),
{
    assert(s.push(c)[0] == if s.len() == 0 {
        c
    } else {
        s[0]
    });
    if s.len() == 0 {
        assert(s.push(c).drop_first() =~= s);
        assert(strip_cr(s) == s);
        if c == '\r' {
            assert(strip_cr(s.push(c)) == strip_cr(s.push(c).drop_first()));
        } else {
            assert(strip_cr(s.push(c)) == seq![c] + strip_cr(s.push(c).drop_first()));
            assert(seq![c] + s =~= s.push(c));
            assert(strip_cr(s).push(c) =~= s.push(c));
        }
    } else {
        assert(s.push(c).drop_first() =~= s.drop_first().push(c));
        lemma_strip_cr_push(s.drop_first(), c);
        if s[0] == '\r' {
            assert(strip_cr(s.push(c)) == strip_cr(s.push(c).drop_first()));
            assert(strip_cr(s) == strip_cr(s.drop_first()));
        } else {
            assert(strip_cr(s.push(c)) == seq![s[0]] + strip_cr(s.push(c).drop_first()));
            assert(strip_cr(s) == seq![s[0]] + strip_cr(s.drop_first()));
            if c != '\r' {
                assert(seq![s[0]] + strip_cr(s.drop_first()).push(c) =~= (seq![s[0]] + strip_cr(
                    s.drop_first(),
                )).push(c));
            }
        }
    }
}

/// Parse a manifest text: split into lines, take each line with a delimiter
/// as an entry, drop the rest. Carriage returns are tolerated and removed.
/// The characters of a text with every carriage return removed.
pub fn strip_cr_chars(contents: &str) -> (r: Vec<char>)
    ensures
        r@ == strip_cr(contents@),
{
    let raw = chars_of(contents);
    let mut cs: Vec<char> = Vec::new();
    let nraw = raw.len();
    let mut i: usize = 0;
    while i < nraw
        invariant
            i <= nraw,
            nraw == raw@.len(),
            raw@ == contents@,
            cs@ == strip_cr(raw@.subrange(0, i as int)),
        decreases nraw - i,
    {
        let c = raw[i];
        if c != '\r' {
            cs.push(c);
        }
        proof {
            lemma_strip_cr_push(raw@.subrange(0, i as int), raw@[i as int]);
            assert(raw@.subrange(0, i as int).push(raw@[i as int]) =~= raw@.subrange(0, i + 1));
        }
        i = i + 1;
    }
    proof {
        assert(raw@.subrange(0, nraw as int) =~= raw@);
    }
    cs
}

pub fn parse_manifest(contents: &str) -> (r: Vec<FileEntry>)
    ensures
        views_of(r@) == parse_manifest_spec(contents@),
{
    let cs = strip_cr_chars(contents);

    let n = cs.len();
    let mut out: Vec<FileEntry> = Vec::new();
    let mut pos: usize = 0;
    proof {
        assert(cs@.skip(0) =~= cs@);
        assert(views_of(out@) =~= Seq::<(Seq<char>, Seq<char>)>::empty());
        assert(views_of(out@) + parse_lines(lines_of(cs@)) =~= parse_lines(lines_of(cs@)));
    }
    loop
        invariant
            pos <= n,
            n == cs@.len(),
            cs@ == strip_cr(contents@),
            views_of(out@) + parse_lines(lines_of(cs@.skip(pos as int))) == parse_lines(
                lines_of(cs@),
            ),
        decreases n - pos,
    {
        let found = find_from(cs.as_slice(), pos, '\n');
        let line_end = match found {
            Some(k) => k,
            None => n,
        };
        let line = slice_subrange(cs.as_slice(), pos, line_end);
        proof {
            let suffix = cs@.skip(pos as int);
            assert(line@ =~= suffix.take(line_end - pos));
            match found {
                Some(k) => {
                    assert(find_char(cs@.subrange(pos as int, n as int), '\n') == k - pos);
                    assert(lines_of(suffix) == seq![suffix.take(k - pos)] + lines_of(
                        suffix.skip(k - pos + 1),
                    ));
                    assert(suffix.skip(line_end - pos + 1) =~= cs@.skip(line_end + 1));
                },
                None => {
                    assert(find_char(suffix, '\n') == -1);
                    assert(lines_of(suffix) == seq![suffix]);
                    assert(line@ =~= suffix);
                },
            }
        }
        let ghost out0 = out@;
        let ghost suffix = cs@.skip(pos as int);
        match find_from(line, 0, '|') {
            Some(j) => {
                let path = string_from_chars(slice_subrange(line, 0, j));
                let digest = string_from_chars(slice_subrange(line, j + 1, line.len()));
                let entry = FileEntry { relative_path: path, digest };
                proof {
                    assert(line@.subrange(0, line@.len() as int) =~= line@);
                    assert(find_char(line@, '|') == j);
                    assert(parse_line(line@) == Some((line@.take(j as int), line@.skip(j + 1))));
                    assert(entry@ == (line@.take(j as int), line@.skip(j + 1)));
                    lemma_views_push(out@, entry);
                }
                out.push(entry);
                proof {
                    assert(parse_lines(lines_of(suffix)) == seq![entry@] + parse_lines(
                        lines_of(suffix).drop_first(),
                    ));
                    assert(views_of(out@) + parse_lines(lines_of(suffix).drop_first()) =~= views_of(
                        out0,
                    ) + parse_lines(lines_of(suffix)));
                }
            },
            None => {
                proof {
                    assert(line@.subrange(0, line@.len() as int) =~= line@);
                    assert(find_char(line@, '|') == -1);
                    assert(parse_line(line@) is None);
                    assert(parse_lines(lines_of(suffix)) == parse_lines(
                        lines_of(suffix).drop_first(),
                    ));
                }
            },
        }
        proof {
            assert(views_of(out@) + parse_lines(lines_of(suffix).drop_first()) == parse_lines(
                lines_of(cs@),
            ));
        }
        match found {
            Some(k) => {
                proof {
                    assert(lines_of(suffix).drop_first() =~= lines_of(cs@.skip(k + 1)));
                }
                pos = k + 1;
            },
            None => {
                proof {
                    assert(lines_of(suffix).drop_first() =~= Seq::<Seq<char>>::empty());
                    assert(parse_lines(Seq::<Seq<char>>::empty()) == Seq::<
                        (Seq<char>, Seq<char>),
                    >::empty());
                    assert(views_of(out@) + Seq::<(Seq<char>, Seq<char>)>::empty() =~= views_of(
                        out@,
                    ));
                }
                return out;
            },
        }
    }
}

/// The order in which manifest entries are persisted: by relative path,
/// ties broken by digest, so that the order is total on entry views.
pub open spec fn entry_le(a: (Seq<char>, Seq<char>), b: (Seq<char>, Seq<char>)) -> bool {
    if a.0 == b.0 {
        lex_le(a.1, b.1)
    } else {
        lex_le(a.0, b.0)
    }
}

/// `entry_le` as a relation value, for vstd's ordering vocabulary.
pub open spec fn entry_order() -> spec_fn((Seq<char>, Seq<char>), (Seq<char>, Seq<char>)) -> bool {
    |a: (Seq<char>, Seq<char>), b: (Seq<char>, Seq<char>)| entry_le(a, b)
}

/// The persisted order is a total ordering on entry views.
pub proof fn lemma_entry_order_total()
    ensures
        vstd::relations::total_ordering(entry_order()),
{
    let r = entry_order();
    assert forall|a: (Seq<char>, Seq<char>)| #[trigger] r(a, a) by {
        crate::text::lemma_lex_le_total(a.1, a.1);
    }
    assert forall|a: (Seq<char>, Seq<char>), b: (Seq<char>, Seq<char>)| #[trigger] r(a, b)
        && #[trigger] r(b, a) implies a == b by {
        if a.0 == b.0 {
            crate::text::lemma_lex_le_antisymmetric(a.1, b.1);
        } else {
            crate::text::lemma_lex_le_antisymmetric(a.0, b.0);
        }
    }
    assert forall|a: (Seq<char>, Seq<char>), b: (Seq<char>, Seq<char>), c: (Seq<char>, Seq<char>)|
        #[trigger] r(a, b) && #[trigger] r(b, c) implies r(a, c) by {
        if a.0 == b.0 && b.0 == c.0 {
            crate::text::lemma_lex_le_transitive(a.1, b.1, c.1);
        } else if a.0 == b.0 {
        } else if b.0 == c.0 {
        } else {
            crate::text::lemma_lex_le_transitive(a.0, b.0, c.0);
            if a.0 == c.0 {
                crate::text::lemma_lex_le_antisymmetric(a.0, b.0);
            }
        }
    }
    assert forall|a: (Seq<char>, Seq<char>), b: (Seq<char>, Seq<char>)| #[trigger] r(a, b)
        || #[trigger] r(b, a) by {
        if a.0 == b.0 {
            crate::text::lemma_lex_le_total(a.1, b.1);
        } else {
            crate::text::lemma_lex_le_total(a.0, b.0);
        }
    }
}

/// The entries in the order the manifest file persists them.
pub open spec fn sort_by_path_spec(es: Seq<(Seq<char>, Seq<char>)>) -> Seq<(Seq<char>, Seq<char>)> {
    es.sort_by(entry_order())
}

/// Compare two entries in the persisted order.
pub fn entry_le_exec(a: &FileEntry, b: &FileEntry) -> (r: bool)
    ensures
        r == entry_le(a@, b@),
{
    if a.relative_path == b.relative_path {
        lex_le_exec(a.digest.as_str(), b.digest.as_str())
    } else {
        lex_le_exec(a.relative_path.as_str(), b.relative_path.as_str())
    }
}

proof fn lemma_views_insert(es: Seq<FileEntry>, j: int, e: FileEntry)
    requires
        0 <= j <= es.len(),
    ensures
        views_of(es.insert(j, e)) == views_of(es).insert(j, e@),
{
    let l = views_of(es.insert(j, e));
    let r = views_of(es).insert(j, e@);
    assert forall|i: int| 0 <= i < l.len() implies l[i] == r[i] by {
        if i < j {
            assert(es.insert(j, e)[i] == es[i]);
        } else if i == j {
            assert(es.insert(j, e)[i] == e);
        } else {
            assert(es.insert(j, e)[i] == es[i - 1]);
        }
    }
    assert(l =~= r);
}

proof fn lemma_views_drop_last(es: Seq<FileEntry>)
    requires
        es.len() > 0,
    ensures
        views_of(es) == views_of(es.drop_last()).push(es.last()@),
{
    let l = views_of(es);
    let r = views_of(es.drop_last()).push(es.last()@);
    assert forall|i: int| 0 <= i < l.len() implies l[i] == r[i] by {
        if i < es.len() - 1 {
            assert(es.drop_last()[i] == es[i]);
        }
    }
    assert(l =~= r);
}

/// Entries stand in the persisted order.
pub open spec fn entries_sorted(v: Seq<(Seq<char>, Seq<char>)>) -> bool {
    forall|x: int, y: int| 0 <= x < y < v.len() ==> #[trigger] entry_le(v[x], v[y])
}

/// One of the two directions of the persisted order always holds.
pub proof fn lemma_entry_le_total(a: (Seq<char>, Seq<char>), b: (Seq<char>, Seq<char>))
    ensures
        entry_le(a, b) || entry_le(b, a),
{
    if a.0 == b.0 {
        crate::text::lemma_lex_le_total(a.1, b.1);
    } else {
        crate::text::lemma_lex_le_total(a.0, b.0);
    }
}

/// The persisted order is transitive.
pub proof fn lemma_entry_le_transitive(
    a: (Seq<char>, Seq<char>),
    b: (Seq<char>, Seq<char>),
    c: (Seq<char>, Seq<char>),
)
    requires
        entry_le(a, b),
        entry_le(b, c),
    ensures
        entry_le(a, c),
{
    if a.0 == b.0 && b.0 == c.0 {
        crate::text::lemma_lex_le_transitive(a.1, b.1, c.1);
    } else if a.0 == b.0 {
    } else if b.0 == c.0 {
    } else {
        crate::text::lemma_lex_le_transitive(a.0, b.0, c.0);
        if a.0 == c.0 {
            crate::text::lemma_lex_le_antisymmetric(a.0, b.0);
        }
    }
}

/// `entries_sorted` is `sorted_by` under the order relation.
pub proof fn lemma_entries_sorted_is_sorted_by(v: Seq<(Seq<char>, Seq<char>)>)
    requires
        entries_sorted(v),
    ensures
        vstd::relations::sorted_by(v, entry_order()),
{
    let r = entry_order();
    assert forall|x: int, y: int| 0 <= x < y < v.len() implies #[trigger] r(v[x], v[y]) by {
        assert(entry_le(v[x], v[y]));
    }
}

/// Sort entries into the persisted order. The result is sorted and is a
/// rearrangement of the input: exactly `sort_by_path_spec` of it.
pub fn sort_entries(entries: Vec<FileEntry>) -> (r: Vec<FileEntry>)
    ensures
        views_of(r@) == sort_by_path_spec(views_of(entries@)),
        entries_sorted(views_of(r@)),
{
    let ghost all = views_of(entries@);
    let mut rest = entries;
    let mut out: Vec<FileEntry> = Vec::new();
    proof {
        assert(views_of(out@) =~= Seq::<(Seq<char>, Seq<char>)>::empty());
        assert(views_of(out@).to_multiset().add(views_of(rest@).to_multiset()) =~= views_of(
            rest@,
        ).to_multiset());
    }
    while rest.len() > 0
        invariant
            entries_sorted(views_of(out@)),
            views_of(out@).to_multiset().add(views_of(rest@).to_multiset()) == all.to_multiset(),
        decreases rest.len(),
    {
        let ghost rest0 = rest@;
        let ghost out0 = views_of(out@);
        let popped = rest.pop();
        let e = match popped {
            Some(e) => e,
            None => {
                proof {
                    assert(false);
                }
                vstd::pervasive::unreached()
            },
        };
        proof {
            lemma_views_drop_last(rest0);
            assert(rest0.drop_last() =~= rest@);
            assert(views_of(rest0) == views_of(rest@).push(e@));
        }
        let mut j: usize = 0;
        loop
            invariant_except_break
                j <= out@.len(),
                views_of(out@) == out0,
                forall|m: int| 0 <= m < j ==> entry_le(#[trigger] out0[m], e@),
            ensures
                j <= out@.len(),
                views_of(out@) == out0,
                forall|m: int| 0 <= m < j ==> entry_le(#[trigger] out0[m], e@),
                j < out@.len() ==> !entry_le(out0[j as int], e@),
            decreases out@.len() - j,
        {
            if j >= out.len() {
                break;
            }
            let keep_going = entry_le_exec(&out[j], &e);
            proof {
                assert(out@[j as int]@ == out0[j as int]);
            }
            if !keep_going {
                break;
            }
            j = j + 1;
        }
        proof {
            if j < out@.len() {
                lemma_entry_le_total(e@, out0[j as int]);
                assert(entry_le(e@, out0[j as int]));
            }
            lemma_views_insert(out@, j as int, e);
        }
        out.insert(j, e);
        proof {
            let v = views_of(out@);
            assert(v == out0.insert(j as int, e@));
            assert forall|x: int, y: int| 0 <= x < y < v.len() implies #[trigger] entry_le(
                v[x],
                v[y],
            ) by {
                if y < j {
                    assert(v[x] == out0[x] && v[y] == out0[y]);
                    assert(entry_le(out0[x], out0[y]));
                } else if x < j && y == j {
                    assert(v[x] == out0[x] && v[y] == e@);
                    assert(entry_le(out0[x], e@));
                } else if x < j && y > j {
                    assert(v[x] == out0[x] && v[y] == out0[y - 1]);
                    assert(entry_le(out0[x], out0[y - 1]) || x == y - 1);
                    if x == y - 1 {
                        assert(entry_le(out0[x], e@));
                        assert(entry_le(e@, out0[x]) || x < j);
                    }
                } else if x == j && y > j {
                    assert(v[x] == e@ && v[y] == out0[y - 1]);
                    assert(j < out0.len());
                    assert(entry_le(e@, out0[j as int]));
                    if j as int != y - 1 {
                        assert(entry_le(out0[j as int], out0[y - 1]));
                        lemma_entry_le_transitive(e@, out0[j as int], out0[y - 1]);
                    }
                } else {
                    assert(v[x] == out0[x - 1] && v[y] == out0[y - 1]);
                    assert(entry_le(out0[x - 1], out0[y - 1]));
                }
            }
            assert(entries_sorted(v));
            assert(out0.insert(j as int, e@).to_multiset() == out0.to_multiset().insert(e@));
            assert(v.to_multiset() == out0.to_multiset().insert(e@));
            assert(views_of(rest@).push(e@).to_multiset() == views_of(rest@).to_multiset().insert(
                e@,
            ));
            assert(views_of(rest0).to_multiset() == views_of(rest@).to_multiset().insert(e@));
            assert(out0.to_multiset().insert(e@).add(views_of(rest@).to_multiset()) =~= out0
                .to_multiset().add(views_of(rest@).to_multiset().insert(e@)));
        }
    }
    proof {
        assert(views_of(rest@) =~= Seq::<(Seq<char>, Seq<char>)>::empty());
        assert(views_of(rest@).to_multiset() =~= Multiset::<(Seq<char>, Seq<char>)>::empty());
        assert(views_of(out@).to_multiset() =~= all.to_multiset());
        lemma_entry_order_total();
        all.lemma_sort_by_ensures(entry_order());
        lemma_entries_sorted_is_sorted_by(views_of(out@));
        vstd::seq_lib::lemma_sorted_unique(
            views_of(out@),
            all.sort_by(entry_order()),
            entry_order(),
        );
    }
    out
}

proof fn lemma_not_contains_parts(s: Seq<char>, c: char)
    requires
        s.len() > 0,
        !s.contains(c),
    ensures
        s[0] != c,
        !s.drop_first().contains(c),
{
    assert(s[0] != c) by {
        if s[0] == c {
            assert(s.contains(c));
        }
    }
    if s.drop_first().contains(c) {
        let i = choose|i: int| 0 <= i < s.drop_first().len() && s.drop_first()[i] == c;
        assert(s[i + 1] == c);
        assert(s.contains(c));
    }
}

proof fn lemma_no_cr_strip_id(s: Seq<char>)
    requires
        !s.contains('\r'),
    ensures
        strip_cr(s) == s,
    decreases s.len(),
{
    if s.len() > 0 {
        lemma_not_contains_parts(s, '\r');
        lemma_no_cr_strip_id(s.drop_first());
        assert(strip_cr(s) == seq![s[0]] + s.drop_first());
        assert(seq![s[0]] + s.drop_first() =~= s);
    }
}

proof fn lemma_line_not_contains(e: (Seq<char>, Seq<char>), c: char)
    requires
        entry_wf(e),
        c == '\n' || c == '\r',
    ensures
        !line_of(e).contains(c),
{
    let l = line_of(e);
    if l.contains(c) {
        let i = choose|i: int| 0 <= i < l.len() && l[i] == c;
        if i < e.0.len() {
            assert(e.0[i] == c);
            assert(e.0.contains(c));
        } else if i == e.0.len() {
            assert(l[i] == '|');
        } else {
            assert(e.1[i - e.0.len() - 1] == c);
            assert(e.1.contains(c));
        }
    }
}

proof fn lemma_find_char_append(l: Seq<char>, c: char, rest: Seq<char>)
    requires
        !l.contains(c),
    ensures
        find_char(l + seq![c] + rest, c) == l.len(),
    decreases l.len(),
{
    let s = l + seq![c] + rest;
    if l.len() == 0 {
        assert(s[0] == c);
    } else {
        lemma_not_contains_parts(l, c);
        assert(s[0] == l[0]);
        assert(s.drop_first() =~= l.drop_first() + seq![c] + rest);
        lemma_find_char_append(l.drop_first(), c, rest);
    }
}

/// A well-formed entry's line parses back to exactly that entry.
pub proof fn lemma_parse_line_of(e: (Seq<char>, Seq<char>))
    requires
        entry_wf(e),
    ensures
        parse_line(line_of(e)) == Some(e),
{
    let l = line_of(e);
    lemma_find_char_append(e.0, '|', e.1);
    assert(find_char(l, '|') == e.0.len());
    assert(l.take(e.0.len() as int) =~= e.0);
    assert(l.skip(e.0.len() as int + 1) =~= e.1);
    assert((l.take(e.0.len() as int), l.skip(e.0.len() as int + 1)) == e);
}

proof fn lemma_serialize_no_char(es: Seq<(Seq<char>, Seq<char>)>, c: char)
    requires
        entries_wf(es),
        c == '\r',
    ensures
        !serialize_entries(es).contains(c),
    decreases es.len(),
{
    let s = serialize_entries(es);
    if es.len() == 0 {
    } else if es.len() == 1 {
        assert(entry_wf(es[0]));
        lemma_line_not_contains(es[0], c);
        assert(s == line_of(es[0]));
    } else {
        assert(entry_wf(es[0]));
        lemma_line_not_contains(es[0], c);
        assert(entries_wf(es.drop_first())) by {
            assert(forall|i: int|
                0 <= i < es.drop_first().len() ==> #[trigger] es.drop_first()[i] == es[i + 1]);
        }
        lemma_serialize_no_char(es.drop_first(), c);
        let l = line_of(es[0]);
        let rest = serialize_entries(es.drop_first());
        assert(s == l + seq!['\n'] + rest);
        if s.contains(c) {
            let i = choose|i: int| 0 <= i < s.len() && s[i] == c;
            if i < l.len() {
                assert(l[i] == c);
                assert(l.contains(c));
            } else if i == l.len() {
                assert(s[i] == '\n');
            } else {
                assert(rest[i - l.len() - 1] == c);
                assert(rest.contains(c));
            }
        }
    }
}

/// Parsing what `serialize_entries` wrote yields exactly the entries that
/// were written, in the order they were written.
pub proof fn lemma_serialize_parse_round_trip(es: Seq<(Seq<char>, Seq<char>)>)
    requires
        entries_wf(es),
    ensures
        parse_lines(lines_of(serialize_entries(es))) == es,
    decreases es.len(),
{
    let s = serialize_entries(es);
    if es.len() == 0 {
        assert(find_char(s, '\n') == -1);
        assert(lines_of(s) == seq![s]);
        assert(find_char(s, '|') == -1);
        assert(parse_line(s) is None);
        assert(lines_of(s)[0] == s);
        assert(lines_of(s).drop_first() =~= Seq::<Seq<char>>::empty());
        assert(parse_lines(lines_of(s)) == parse_lines(lines_of(s).drop_first()));
        assert(parse_lines(Seq::<Seq<char>>::empty()) == Seq::<(Seq<char>, Seq<char>)>::empty());
        assert(parse_lines(lines_of(s)) =~= es);
    } else if es.len() == 1 {
        assert(entry_wf(es[0]));
        lemma_line_not_contains(es[0], '\n');
        assert(s == line_of(es[0]));
        if find_char(s, '\n') != -1 {
            lemma_find_char(s, '\n');
            assert(s.contains('\n'));
        }
        assert(lines_of(s) == seq![s]);
        lemma_parse_line_of(es[0]);
        assert(lines_of(s)[0] == s);
        assert(lines_of(s).drop_first() =~= Seq::<Seq<char>>::empty());
        assert(parse_lines(lines_of(s)) == seq![es[0]] + parse_lines(Seq::<Seq<char>>::empty()));
        assert(seq![es[0]] + Seq::<(Seq<char>, Seq<char>)>::empty() =~= es);
    } else {
        assert(entry_wf(es[0]));
        lemma_line_not_contains(es[0], '\n');
        assert(entries_wf(es.drop_first())) by {
            assert(forall|i: int|
                0 <= i < es.drop_first().len() ==> #[trigger] es.drop_first()[i] == es[i + 1]);
        }
        lemma_serialize_parse_round_trip(es.drop_first());
        let l = line_of(es[0]);
        let rest = serialize_entries(es.drop_first());
        assert(s == l + seq!['\n'] + rest);
        lemma_find_char_append(l, '\n', rest);
        assert(find_char(s, '\n') == l.len());
        assert(s.take(l.len() as int) =~= l);
        assert(s.skip(l.len() as int + 1) =~= rest);
        assert(lines_of(s) == seq![l] + lines_of(rest));
        assert(lines_of(s)[0] == l);
        assert(lines_of(s).drop_first() =~= lines_of(rest));
        lemma_parse_line_of(es[0]);
        assert(parse_lines(lines_of(s)) == seq![es[0]] + parse_lines(lines_of(rest)));
        assert(seq![es[0]] + es.drop_first() =~= es);
    }
}

/// Round trip of the manifest store: serializing entries in the persisted
/// order and parsing the text back yields exactly the entries, sorted by
/// path. Holds for every entry set whose paths and digests the line format
/// can carry.
pub proof fn lemma_manifest_round_trip(es: Seq<(Seq<char>, Seq<char>)>)
    requires
        entries_wf(es),
    ensures
        parse_manifest_spec(serialize_entries(sort_by_path_spec(es))) == sort_by_path_spec(es),
{
    lemma_entry_order_total();
    es.lemma_sort_by_ensures(entry_order());
    let sorted = sort_by_path_spec(es);
    assert forall|i: int| 0 <= i < sorted.len() implies entry_wf(#[trigger] sorted[i]) by {
        assert(sorted.contains(sorted[i]));
        assert(es.contains(sorted[i]));
        let j = choose|j: int| 0 <= j < es.len() && es[j] == sorted[i];
        assert(entry_wf(es[j]));
    }
    lemma_serialize_no_char(sorted, '\r');
    lemma_no_cr_strip_id(serialize_entries(sorted));
    lemma_serialize_parse_round_trip(sorted);
}

/// The fingerprint of a manifest text: the digest of its byte encoding.
pub open spec fn fingerprint_of(content: Seq<char>) -> Seq<char> {
    crate::checksums::digest_of(vstd::utf8::encode_utf8(content))
}

/// Compute the installation fingerprint from the manifest file's text.
pub fn fingerprint_of_content(content: &str) -> (r: String)
    ensures
        r@ == fingerprint_of(content@),
        r@.len() == 32,
{
    match crate::checksums::calculate_hash(content.as_bytes()) {
        Ok(s) => s,
        Err(_) => {
            proof {
                assert(false);
            }
            vstd::pervasive::unreached()
        },
    }
}

/// Fingerprint determinism: entry sets holding the same entries, in any
/// order, serialize to the same manifest text and therefore to the same
/// fingerprint.
pub proof fn lemma_fingerprint_deterministic(
    a: Seq<(Seq<char>, Seq<char>)>,
    b: Seq<(Seq<char>, Seq<char>)>,
)
    requires
        a.to_multiset() == b.to_multiset(),
    ensures
        sort_by_path_spec(a) == sort_by_path_spec(b),
        serialize_entries(sort_by_path_spec(a)) == serialize_entries(sort_by_path_spec(b)),
        fingerprint_of(serialize_entries(sort_by_path_spec(a))) == fingerprint_of(
            serialize_entries(sort_by_path_spec(b)),
        ),
{
    lemma_entry_order_total();
    a.lemma_sort_by_ensures(entry_order());
    b.lemma_sort_by_ensures(entry_order());
    vstd::seq_lib::lemma_sorted_unique(
        sort_by_path_spec(a),
        sort_by_path_spec(b),
        entry_order(),
    );
}

/// The order of an enumerated file list: plain lexicographic on the paths.
pub open spec fn path_order() -> spec_fn(Seq<char>, Seq<char>) -> bool {
    |a: Seq<char>, b: Seq<char>| lex_le(a, b)
}

/// The views of a list of paths.
pub open spec fn path_views(ps: Seq<String>) -> Seq<Seq<char>> {
    ps.map_values(|p: String| p@)
}

/// Paths stand in lexicographic order.
pub open spec fn paths_sorted(v: Seq<Seq<char>>) -> bool {
    forall|x: int, y: int| 0 <= x < y < v.len() ==> lex_le(#[trigger] v[x], #[trigger] v[y])
}

/// The path list in lexicographic order.
pub open spec fn sort_paths_spec(ps: Seq<Seq<char>>) -> Seq<Seq<char>> {
    ps.sort_by(path_order())
}

/// Lexicographic order on paths is a total ordering.
pub proof fn lemma_path_order_total()
    ensures
        vstd::relations::total_ordering(path_order()),
{
    let r = path_order();
    assert forall|a: Seq<char>| #[trigger] r(a, a) by {
        crate::text::lemma_lex_le_total(a, a);
    }
    assert forall|a: Seq<char>, b: Seq<char>| #[trigger] r(a, b) && #[trigger] r(b, a) implies a
        == b by {
        crate::text::lemma_lex_le_antisymmetric(a, b);
    }
    assert forall|a: Seq<char>, b: Seq<char>, c: Seq<char>| #[trigger] r(a, b) && #[trigger] r(
        b,
        c,
    ) implies r(a, c) by {
        crate::text::lemma_lex_le_transitive(a, b, c);
    }
    assert forall|a: Seq<char>, b: Seq<char>| #[trigger] r(a, b) || #[trigger] r(b, a) by {
        crate::text::lemma_lex_le_total(a, b);
    }
}

proof fn lemma_path_views_insert(ps: Seq<String>, j: int, p: String)
    requires
        0 <= j <= ps.len(),
    ensures
        path_views(ps.insert(j, p)) == path_views(ps).insert(j, p@),
{
    let l = path_views(ps.insert(j, p));
    let r = path_views(ps).insert(j, p@);
    assert forall|i: int| 0 <= i < l.len() implies l[i] == r[i] by {
        if i < j {
            assert(ps.insert(j, p)[i] == ps[i]);
        } else if i == j {
            assert(ps.insert(j, p)[i] == p);
        } else {
            assert(ps.insert(j, p)[i] == ps[i - 1]);
        }
    }
    assert(l =~= r);
}

proof fn lemma_path_views_drop_last(ps: Seq<String>)
    requires
        ps.len() > 0,
    ensures
        path_views(ps) == path_views(ps.drop_last()).push(ps.last()@),
{
    let l = path_views(ps);
    let r = path_views(ps.drop_last()).push(ps.last()@);
    assert forall|i: int| 0 <= i < l.len() implies l[i] == r[i] by {
        if i < ps.len() - 1 {
            assert(ps.drop_last()[i] == ps[i]);
        }
    }
    assert(l =~= r);
}

/// Sort an enumerated file list lexicographically: the order the manifest
/// persists, so that enumeration is deterministic whatever order the file
/// system reported.
pub fn sort_paths(paths: Vec<String>) -> (r: Vec<String>)
    ensures
        path_views(r@) == sort_paths_spec(path_views(paths@)),
        paths_sorted(path_views(r@)),
{
    broadcast use vstd::seq_lib::group_to_multiset_ensures, vstd::multiset::group_multiset_axioms;

    let ghost all = path_views(paths@);
    let mut rest = paths;
    let mut out: Vec<String> = Vec::new();
    proof {
        assert(path_views(out@) =~= Seq::<Seq<char>>::empty());
        assert(path_views(out@).to_multiset().add(path_views(rest@).to_multiset()) =~= path_views(
            rest@,
        ).to_multiset());
    }
    while rest.len() > 0
        invariant
            paths_sorted(path_views(out@)),
            path_views(out@).to_multiset().add(path_views(rest@).to_multiset())
                == all.to_multiset(),
        decreases rest.len(),
    {
        let ghost rest0 = rest@;
        let ghost out0 = path_views(out@);
        let popped = rest.pop();
        let p = match popped {
            Some(p) => p,
            None => {
                proof {
                    assert(false);
                }
                vstd::pervasive::unreached()
            },
        };
        proof {
            lemma_path_views_drop_last(rest0);
            assert(rest0.drop_last() =~= rest@);
            assert(path_views(rest0) == path_views(rest@).push(p@));
        }
        let mut j: usize = 0;
        loop
            invariant_except_break
                j <= out@.len(),
                path_views(out@) == out0,
                forall|m: int| 0 <= m < j ==> lex_le(#[trigger] out0[m], p@),
            ensures
                j <= out@.len(),
                path_views(out@) == out0,
                forall|m: int| 0 <= m < j ==> lex_le(#[trigger] out0[m], p@),
                j < out@.len() ==> !lex_le(out0[j as int], p@),
            decreases out@.len() - j,
        {
            if j >= out.len() {
                break;
            }
            let keep_going = lex_le_exec(out[j].as_str(), p.as_str());
            proof {
                assert(out@[j as int]@ == out0[j as int]);
            }
            if !keep_going {
                break;
            }
            j = j + 1;
        }
        proof {
            if j < out@.len() {
                crate::text::lemma_lex_le_total(p@, out0[j as int]);
                assert(lex_le(p@, out0[j as int]));
            }
            lemma_path_views_insert(out@, j as int, p);
        }
        out.insert(j, p);
        proof {
            let v = path_views(out@);
            assert(v == out0.insert(j as int, p@));
            assert forall|x: int, y: int| 0 <= x < y < v.len() implies lex_le(
                #[trigger] v[x],
                #[trigger] v[y],
            ) by {
                if y < j {
                    assert(v[x] == out0[x] && v[y] == out0[y]);
                    assert(lex_le(out0[x], out0[y]));
                } else if x < j && y == j {
                    assert(v[x] == out0[x] && v[y] == p@);
                    assert(lex_le(out0[x], p@));
                } else if x < j && y > j {
                    assert(v[x] == out0[x] && v[y] == out0[y - 1]);
                    assert(lex_le(out0[x], out0[y - 1]) || x == y - 1);
                    if x == y - 1 {
                        assert(lex_le(out0[x], p@));
                    }
                } else if x == j && y > j {
                    assert(v[x] == p@ && v[y] == out0[y - 1]);
                    assert(j < out0.len());
                    assert(lex_le(p@, out0[j as int]));
                    if j as int != y - 1 {
                        assert(lex_le(out0[j as int], out0[y - 1]));
                        crate::text::lemma_lex_le_transitive(p@, out0[j as int], out0[y - 1]);
                    }
                } else {
                    assert(v[x] == out0[x - 1] && v[y] == out0[y - 1]);
                    assert(lex_le(out0[x - 1], out0[y - 1]));
                }
            }
            assert(paths_sorted(v));
            assert(out0.insert(j as int, p@).to_multiset() == out0.to_multiset().insert(p@));
            assert(v.to_multiset() == out0.to_multiset().insert(p@));
            assert(path_views(rest@).push(p@).to_multiset() == path_views(
                rest@,
            ).to_multiset().insert(p@));
            assert(path_views(rest0).to_multiset() == path_views(rest@).to_multiset().insert(p@));
            assert(out0.to_multiset().insert(p@).add(path_views(rest@).to_multiset()) =~= out0
                .to_multiset().add(path_views(rest@).to_multiset().insert(p@)));
        }
    }
    proof {
        assert(path_views(rest@) =~= Seq::<Seq<char>>::empty());
        assert(path_views(rest@).to_multiset() =~= Multiset::<Seq<char>>::empty());
        assert(path_views(out@).to_multiset() =~= all.to_multiset());
        lemma_path_order_total();
        all.lemma_sort_by_ensures(path_order());
        assert forall|x: int, y: int|
            0 <= x < y < path_views(out@).len() implies #[trigger] (path_order())(
            path_views(out@)[x],
            path_views(out@)[y],
        ) by {
            assert(lex_le(path_views(out@)[x], path_views(out@)[y]));
        }
        vstd::seq_lib::lemma_sorted_unique(
            path_views(out@),
            all.sort_by(path_order()),
            path_order(),
        );
    }
    out
}

/// A path made relative to a root: the root prefix and one following
/// separator are removed; a path that does not start with the root is kept
/// as it is.
pub open spec fn strip_root(p: Seq<char>, root: Seq<char>) -> Seq<char> {
    if p.len() > root.len() && p.take(root.len() as int) == root && (p[root.len() as int] == '/'
        || p[root.len() as int] == '\\') {
        p.skip(root.len() as int + 1)
    } else if p == root {
        Seq::<char>::empty()
    } else {
        p
    }
}

/// Make one path relative to the installation root, as `strip_root` says.
pub fn strip_root_exec(p: &str, root: &str) -> (r: String)
    ensures
        r@ == strip_root(p@, root@),
{
    let pc = chars_of(p);
    let rc = chars_of(root);
    let np = pc.len();
    let nr = rc.len();
    let mut matches_prefix = np >= nr;
    let mut i: usize = 0;
    while i < nr && matches_prefix
        invariant
            i <= nr,
            nr == rc@.len(),
            np == pc@.len(),
            pc@ == p@,
            rc@ == root@,
            matches_prefix ==> np >= nr && forall|m: int| 0 <= m < i ==> p@[m] == root@[m],
            !matches_prefix ==> !(p@.take(nr as int) == root@ && np >= nr),
        decreases nr - i,
    {
        if pc[i] != rc[i] {
            proof {
                assert(p@.take(nr as int)[i as int] != root@[i as int]);
            }
            matches_prefix = false;
            i = nr;
        } else {
            i = i + 1;
        }
    }
    proof {
        if matches_prefix {
            assert(p@.take(nr as int) =~= root@);
        }
    }
    if matches_prefix && np > nr {
        let sep = pc[nr];
        if sep == '/' || sep == '\\' {
            return crate::text::string_from_chars(slice_subrange(pc.as_slice(), nr + 1, np));
        }
        proof {
            assert(p@ != root@) by {
                assert(p@.len() != root@.len());
            }
        }
        return p.to_owned();
    }
    if matches_prefix && np == nr {
        proof {
            assert(p@.take(nr as int) =~= p@);
        }
        return String::new();
    }
    proof {
        if np > nr {
            assert(!(p@.take(nr as int) == root@));
            assert(p@ != root@) by {
                assert(p@.len() != root@.len());
            }
        } else if np == nr {
            assert(p@.take(nr as int) =~= p@);
        } else {
            assert(p@ != root@) by {
                assert(p@.len() != root@.len());
            }
        }
    }
    p.to_owned()
}

/// The paths a manifest text catalogues, each made relative to the
/// installation root.
pub fn manifest_paths(contents: &str, install_path: &str) -> (r: Vec<String>)
    ensures
        r@.len() == parse_manifest_spec(contents@).len(),
        forall|i: int|
            0 <= i < r@.len() ==> #[trigger] r@[i]@ == strip_root(
                parse_manifest_spec(contents@)[i].0,
                install_path@,
            ),
{
    let entries = parse_manifest(contents);
    let ghost parsed = parse_manifest_spec(contents@);
    let mut r: Vec<String> = Vec::new();
    let n = entries.len();
    let mut i: usize = 0;
    while i < n
        invariant
            i <= n,
            n == entries@.len(),
            views_of(entries@) == parsed,
            r@.len() == i,
            forall|m: int|
                0 <= m < i ==> #[trigger] r@[m]@ == strip_root(parsed[m].0, install_path@),
        decreases n - i,
    {
        let rel = strip_root_exec(entries[i].relative_path.as_str(), install_path);
        proof {
            assert(views_of(entries@)[i as int] == entries@[i as int]@);
        }
        r.push(rel);
        i = i + 1;
    }
    r
}

} // verus!
