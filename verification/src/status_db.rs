//! The installed-package database: what the record that installing a
//! package appends reads back as.

use vstd::prelude::*;

use crate::cache::{
    first_named, lemma_first_named_keep, lemma_first_named_push, paragraphs, parsed, record_of,
    spec_db_dump,
};
use crate::package::{
    ControlView, field_entries, field_or_empty, first_missing, line_entry, lookup, spec_control,
    spec_field,
};
use crate::text::{
    find_seq, is_ws, join, lemma_concat_lacks, lemma_find_char_concat, lemma_find_seq, lemma_find_seq_is,
    lemma_join_lacks, lemma_join_push, lemma_split_char_concat, lemma_split_lines,
    lemma_trim_end_keeps, lines, matches_at, split_seq, strip_cr, trim, trim_end, trim_start,
};

verus! {

/// A field value that a record keeps as it is: on one line, without
/// whitespace at either end.
pub open spec fn clean_value(v: Seq<char>) -> bool {
    &&& !v.contains('\n')
    &&& v.len() > 0 ==> !is_ws(v[0]) && !is_ws(v.last())
}

/// A key that a field line starts with: not empty, not starting with
/// whitespace, without a colon.
pub open spec fn field_key(k: Seq<char>) -> bool {
    k.len() > 0 && !is_ws(k[0]) && !k.contains(':')
}

/// A line made of a key, a colon, and text without a line end keeps its
/// key, with or without a carriage return removed from its end.
proof fn lemma_line_key(key: Seq<char>, rest: Seq<char>)
    requires
        field_key(key),
    ensures
        line_entry(key + seq![':'] + rest).0 == key,
        find_seq(trim(key + seq![':'] + rest), seq![':']) == Some(key.len() as int),
        trim(key + seq![':'] + rest) == trim_end(key + seq![':'] + rest),
{
    let l = key + seq![':'] + rest;
    assert(l[0] == key[0]);
    assert(trim_start(l) == l);
    assert(l[key.len() as int] == ':');
    lemma_trim_end_keeps(l, key.len() as int);
    let t = trim_end(l);
    assert(trim(l) == t);
    let tail = t.subrange(key.len() + 1int, t.len() as int);
    assert(t =~= key + (seq![':'] + tail));
    lemma_find_char_concat(key, seq![':'] + tail, ':');
    assert((seq![':'] + tail).subrange(0, 1) =~= seq![':']);
    assert(find_seq(seq![':'] + tail, seq![':']) == Some(0int));
    assert(t.subrange(0, key.len() as int) =~= key);
}

/// The key of a field line survives the removal of a final carriage return.
proof fn lemma_line_key_cr(key: Seq<char>, rest: Seq<char>)
    requires
        field_key(key),
    ensures
        line_entry(strip_cr(key + seq![':'] + rest)).0 == key,
{
    let l = key + seq![':'] + rest;
    if l.len() > 0 && l.last() == '\r' {
        assert(rest.len() > 0);
        assert(l.drop_last() =~= key + seq![':'] + rest.drop_last());
        lemma_line_key(key, rest.drop_last());
    } else {
        lemma_line_key(key, rest);
    }
}

/// A field line whose value is clean gives that value back, and has no
/// carriage return to remove.
proof fn lemma_line_value(key: Seq<char>, v: Seq<char>)
    requires
        field_key(key),
        clean_value(v),
    ensures
        line_entry(key + ": "@ + v).1 matches Some(x) && trim(x) == v,
        strip_cr(key + ": "@ + v) == key + ": "@ + v,
{
    reveal_strlit(": ");
    let l = key + ": "@ + v;
    assert(": "@ =~= seq![':', ' ']);
    assert(l =~= key + seq![':'] + (seq![' '] + v));
    lemma_line_key(key, seq![' '] + v);
    assert(l[0] == key[0]);
    assert(trim_start(l) == l);
    assert(is_ws(' '));
    if v.len() > 0 {
        assert(l.last() == v.last());
        assert(trim_end(l) == l);
        let x = l.subrange(key.len() + 1int, l.len() as int);
        assert(x =~= seq![' '] + v);
        assert(line_entry(l).1 == Some(x));
        assert(x.drop_first() =~= v);
        assert(trim_start(x) == trim_start(v));
        assert(trim_start(v) == v);
        assert(trim_end(v) == v);
    } else {
        assert(l.last() == ' ');
        assert(l.drop_last() =~= key + seq![':']);
        assert((key + seq![':']).last() == ':');
        assert(trim_end(key + seq![':']) == key + seq![':']);
        assert(trim_end(l) == key + seq![':']);
        let t = key + seq![':'];
        assert(line_entry(l).1 == Some(t.subrange(key.len() + 1int, t.len() as int)));
        assert(t.subrange(key.len() + 1int, t.len() as int) =~= Seq::<char>::empty());
        assert(trim_start(Seq::<char>::empty()) == Seq::<char>::empty());
        assert(trim_end(Seq::<char>::empty()) == Seq::<char>::empty());
    }
}

/// The value of the last entry with a key is what a lookup of that key
/// gives.
proof fn lemma_lookup_at(es: Seq<(Seq<char>, Option<Seq<char>>)>, key: Seq<char>, i: int)
    requires
        0 <= i < es.len(),
        es[i].0 == key,
        forall|j: int| i < j < es.len() ==> (#[trigger] es[j]).0 != key,
    ensures
        lookup(es, key) == Some(es[i].1),
    decreases es.len(),
{
    if i < es.len() - 1 {
        assert(es.last() == es[es.len() - 1]);
        lemma_lookup_at(es.drop_last(), key, i);
    }
}

/// A key that no entry has is not found.
proof fn lemma_lookup_none(es: Seq<(Seq<char>, Option<Seq<char>>)>, key: Seq<char>)
    requires
        forall|j: int| 0 <= j < es.len() ==> (#[trigger] es[j]).0 != key,
    ensures
        lookup(es, key) is None,
    decreases es.len(),
{
    if es.len() > 0 {
        assert(es.last() == es[es.len() - 1]);
        lemma_lookup_none(es.drop_last(), key);
    }
}

/// The keys of the lines of a package's record, in order.
pub open spec fn record_keys(c: ControlView) -> Seq<Seq<char>> {
    seq!["Package"@, "Version"@, "Priority"@, "Architecture"@, "Maintainer"@, "Description"@]
        + (if c.depends is Some { seq!["Depends"@] } else { seq![] })
        + (if c.breaks is Some { seq!["Breaks"@] } else { seq![] })
        + (if c.conflicts is Some { seq!["Conflicts"@] } else { seq![] })
}

/// The values of the lines of a package's record, in order.
pub open spec fn record_values(c: ControlView) -> Seq<Seq<char>> {
    seq![c.package, c.version, c.priority, c.architecture, c.maintainer, c.description]
        + (match c.depends {
            Some(d) => seq![join(d, seq![])],
            None => seq![],
        })
        + (match c.breaks {
            Some(b) => seq![join(b, ", "@)],
            None => seq![],
        })
        + (match c.conflicts {
            Some(x) => seq![join(x, ", "@)],
            None => seq![],
        })
}

/// The lines of a package's record: each key, a colon, a space and its
/// value.
pub open spec fn record_lines(c: ControlView) -> Seq<Seq<char>> {
    Seq::new(record_keys(c).len(), |i: int| record_keys(c)[i] + ": "@ + record_values(c)[i])
}

/// A package's record is its lines joined with line ends, and a line end.
proof fn lemma_record_lines(c: ControlView)
    ensures
        record_keys(c).len() == record_values(c).len(),
        record_of(c) == join(record_lines(c), seq!['\n']) + seq!['\n'],
{
    reveal_strlit(": ");
    reveal_strlit("Package");
    reveal_strlit("Version");
    reveal_strlit("Priority");
    reveal_strlit("Architecture");
    reveal_strlit("Maintainer");
    reveal_strlit("Description");
    reveal_strlit("Depends");
    reveal_strlit("Breaks");
    reveal_strlit("Conflicts");
    reveal_strlit("Package: ");
    reveal_strlit("\nVersion: ");
    reveal_strlit("\nPriority: ");
    reveal_strlit("\nArchitecture: ");
    reveal_strlit("\nMaintainer: ");
    reveal_strlit("\nDescription: ");
    reveal_strlit("\nDepends: ");
    reveal_strlit("\nBreaks: ");
    reveal_strlit("\nConflicts: ");
    let nl = seq!['\n'];
    let l0 = "Package"@ + ": "@ + c.package;
    let l1 = "Version"@ + ": "@ + c.version;
    let l2 = "Priority"@ + ": "@ + c.priority;
    let l3 = "Architecture"@ + ": "@ + c.architecture;
    let l4 = "Maintainer"@ + ": "@ + c.maintainer;
    let l5 = "Description"@ + ": "@ + c.description;
    assert("Package: "@ =~= "Package"@ + ": "@);
    assert("\nVersion: "@ =~= nl + "Version"@ + ": "@);
    assert("\nPriority: "@ =~= nl + "Priority"@ + ": "@);
    assert("\nArchitecture: "@ =~= nl + "Architecture"@ + ": "@);
    assert("\nMaintainer: "@ =~= nl + "Maintainer"@ + ": "@);
    assert("\nDescription: "@ =~= nl + "Description"@ + ": "@);
    assert("\nDepends: "@ =~= nl + "Depends"@ + ": "@);
    assert("\nBreaks: "@ =~= nl + "Breaks"@ + ": "@);
    assert("\nConflicts: "@ =~= nl + "Conflicts"@ + ": "@);
    let h1 = seq![l0];
    let h2 = h1.push(l1);
    let h3 = h2.push(l2);
    let h4 = h3.push(l3);
    let h5 = h4.push(l4);
    let h6 = h5.push(l5);
    lemma_join_push(h1, l1, nl);
    lemma_join_push(h2, l2, nl);
    lemma_join_push(h3, l3, nl);
    lemma_join_push(h4, l4, nl);
    lemma_join_push(h5, l5, nl);
    let base = "Package: "@ + c.package + "\nVersion: "@ + c.version + "\nPriority: "@ + c.priority
        + "\nArchitecture: "@ + c.architecture + "\nMaintainer: "@ + c.maintainer
        + "\nDescription: "@ + c.description;
    assert(join(h6, nl) =~= base);
    let d = match c.depends {
        Some(d) => "\nDepends: "@ + join(d, seq![]),
        None => seq![],
    };
    let b = match c.breaks {
        Some(b) => "\nBreaks: "@ + join(b, ", "@),
        None => seq![],
    };
    let k = match c.conflicts {
        Some(x) => "\nConflicts: "@ + join(x, ", "@),
        None => seq![],
    };
    let g1 = match c.depends {
        Some(d) => h6.push("Depends"@ + ": "@ + join(d, seq![])),
        None => h6,
    };
    if let Some(dl) = c.depends {
        lemma_join_push(h6, "Depends"@ + ": "@ + join(dl, seq![]), nl);
    }
    assert(join(g1, nl) =~= base + d);
    let g2 = match c.breaks {
        Some(b) => g1.push("Breaks"@ + ": "@ + join(b, ", "@)),
        None => g1,
    };
    if let Some(bl) = c.breaks {
        lemma_join_push(g1, "Breaks"@ + ": "@ + join(bl, ", "@), nl);
    }
    assert(join(g2, nl) =~= base + d + b);
    let g3 = match c.conflicts {
        Some(x) => g2.push("Conflicts"@ + ": "@ + join(x, ", "@)),
        None => g2,
    };
    if let Some(xl) = c.conflicts {
        lemma_join_push(g2, "Conflicts"@ + ": "@ + join(xl, ", "@), nl);
    }
    assert(join(g3, nl) =~= base + d + b + k);
    assert(record_lines(c) =~= g3);
}

/// The fields that a record leaves out.
pub open spec fn absent_keys() -> Seq<Seq<char>> {
    seq!["Filename"@, "Size"@, "MD5sum"@, "SHA1"@, "SHA256"@, "SHA512"@]
}

/// The keys of a record are field keys, different from one another and
/// from the fields that a record leaves out.
proof fn lemma_record_keys(c: ControlView)
    ensures
        forall|i: int| 0 <= i < record_keys(c).len() ==> field_key(#[trigger] record_keys(c)[i])
            && !record_keys(c)[i].contains('\n'),
        forall|i: int, j: int|
            0 <= i < j < record_keys(c).len() ==> record_keys(c)[i] != record_keys(c)[j],
        forall|i: int, j: int|
            0 <= i < record_keys(c).len() && 0 <= j < absent_keys().len() ==> record_keys(c)[i]
                != absent_keys()[j],
{
    reveal_strlit("Package");
    reveal_strlit("Version");
    reveal_strlit("Priority");
    reveal_strlit("Architecture");
    reveal_strlit("Maintainer");
    reveal_strlit("Description");
    reveal_strlit("Depends");
    reveal_strlit("Breaks");
    reveal_strlit("Conflicts");
    reveal_strlit("Filename");
    reveal_strlit("Size");
    reveal_strlit("MD5sum");
    reveal_strlit("SHA1");
    reveal_strlit("SHA256");
    reveal_strlit("SHA512");
    let all = seq![
        "Package"@,
        "Version"@,
        "Priority"@,
        "Architecture"@,
        "Maintainer"@,
        "Description"@,
        "Depends"@,
        "Breaks"@,
        "Conflicts"@,
        "Filename"@,
        "Size"@,
        "MD5sum"@,
        "SHA1"@,
        "SHA256"@,
        "SHA512"@,
    ];
    assert forall|i: int| 0 <= i < all.len() implies field_key(#[trigger] all[i]) && !all[i].contains('\n') by {
        assert(!is_ws(all[i][0]));
        if all[i].contains(':') {
            let k = choose|k: int| 0 <= k < all[i].len() && all[i][k] == ':';
            assert(all[i][k] != ':');
        }
        if all[i].contains('\n') {
            let k = choose|k: int| 0 <= k < all[i].len() && all[i][k] == '\n';
            assert(all[i][k] != '\n');
        }
    }
    assert forall|i: int, j: int| 0 <= i < j < all.len() implies all[i] != all[j] by {
        assert(all[i][0] != all[j][0] || all[i].len() != all[j].len() || all[i][1] != all[j][1]
            || all[i][3] != all[j][3]);
    }
    let ks = record_keys(c);
    let pos = |i: int|
        if i < 6 {
            i
        } else if i == 6 && c.depends is Some {
            6
        } else if (i == 6 || (i == 7 && c.depends is Some)) && c.breaks is Some {
            7
        } else {
            8
        };
    assert forall|i: int| 0 <= i < ks.len() implies ks[i] == all[pos(i)] && 0 <= pos(i) < 9 && (
    forall|j: int| i < j < ks.len() ==> pos(i) < #[trigger] pos(j)) by {}
    assert forall|i: int| 0 <= i < ks.len() implies field_key(#[trigger] ks[i]) && !ks[i].contains('\n') by {
        assert(field_key(all[pos(i)]) && !all[pos(i)].contains('\n'));
    }
    assert forall|i: int, j: int| 0 <= i < j < ks.len() implies ks[i] != ks[j] by {
        assert(pos(i) < pos(j));
        assert(all[pos(i)] != all[pos(j)]);
    }
    assert forall|i: int, j: int|
        0 <= i < ks.len() && 0 <= j < absent_keys().len() implies ks[i] != absent_keys()[j] by {
        assert(absent_keys()[j] == all[j + 9]);
        assert(all[pos(i)] != all[j + 9]);
    }
}

/// An optional list whose items are each on one line.
pub open spec fn one_line_items(o: Option<Seq<Seq<char>>>) -> bool {
    match o {
        Some(l) => forall|i: int| 0 <= i < l.len() ==> !(#[trigger] l[i]).contains('\n'),
        None => true,
    }
}

/// A package whose record reads back as it was written: its mandatory
/// fields are clean values and its relationship lists stay on one line.
pub open spec fn recordable(c: ControlView) -> bool {
    &&& clean_value(c.package)
    &&& clean_value(c.version)
    &&& clean_value(c.priority)
    &&& clean_value(c.architecture)
    &&& clean_value(c.maintainer)
    &&& clean_value(c.description)
    &&& one_line_items(c.depends)
    &&& one_line_items(c.breaks)
    &&& one_line_items(c.conflicts)
}

/// What a package's record reads back as: its mandatory fields, and its
/// priority; relationship lists are not read back from the database, and
/// the record keeps no archive name or checksums.
pub open spec fn read_back(c: ControlView) -> ControlView {
    ControlView {
        package: c.package,
        version: c.version,
        priority: c.priority,
        architecture: c.architecture,
        maintainer: c.maintainer,
        description: c.description,
        depends: None,
        recommends: None,
        suggests: None,
        enhances: None,
        pre_depends: None,
        breaks: None,
        conflicts: None,
        conffiles: None,
        filename: seq![],
        size: seq![],
        md5sum: seq![],
        sha1: seq![],
        sha256: seq![],
        sha512: seq![],
    }
}

/// The values of a recordable package's record hold no line end, and its
/// first six are clean.
proof fn lemma_record_values(c: ControlView)
    requires
        recordable(c),
    ensures
        record_values(c).len() == record_keys(c).len(),
        record_keys(c).len() >= 6,
        forall|i: int| 0 <= i < record_values(c).len() ==> !(#[trigger] record_values(c)[i]).contains('\n'),
        forall|i: int| 0 <= i < 6 ==> clean_value(#[trigger] record_values(c)[i]),
{
    reveal_strlit(", ");
    assert(!seq![].contains('\n'));
    assert(!", "@.contains('\n')) by {
        assert(", "@ =~= seq![',', ' ']);
    }
    if let Some(d) = c.depends {
        lemma_join_lacks(d, seq![], '\n');
    }
    if let Some(b) = c.breaks {
        lemma_join_lacks(b, ", "@, '\n');
    }
    if let Some(x) = c.conflicts {
        lemma_join_lacks(x, ", "@, '\n');
    }
    let vs = record_values(c);
    assert forall|i: int| 0 <= i < vs.len() implies !(#[trigger] vs[i]).contains('\n') by {
        if i < 6 {
            assert(clean_value(vs[i]));
        }
    }
}

/// The lines of a recordable package's record are not empty and hold no
/// line end.
proof fn lemma_record_lines_one_line(c: ControlView)
    requires
        recordable(c),
    ensures
        record_lines(c).len() >= 6,
        forall|i: int| 0 <= i < record_lines(c).len() ==> !(#[trigger] record_lines(c)[i]).contains('\n')
            && record_lines(c)[i].len() > 0,
{
    reveal_strlit(": ");
    lemma_record_values(c);
    lemma_record_keys(c);
    let ks = record_keys(c);
    let vs = record_values(c);
    let ls = record_lines(c);
    assert(!": "@.contains('\n')) by {
        assert(": "@ =~= seq![':', ' ']);
    }
    assert forall|i: int| 0 <= i < ls.len() implies !(#[trigger] ls[i]).contains('\n') && ls[i].len() > 0 by {
        assert(field_key(ks[i]));
        assert(!ks[i].contains('\n'));
        lemma_concat_lacks(ks[i], ": "@, '\n');
        assert(!vs[i].contains('\n'));
        lemma_concat_lacks(ks[i] + ": "@, vs[i], '\n');
    }
}

/// The field entries of a recordable package's record: each line keeps its
/// key, and the first six give back their values.
proof fn lemma_record_entries(c: ControlView)
    requires
        recordable(c),
    ensures
        field_entries(join(record_lines(c), seq!['\n'])).len() == record_keys(c).len(),
        forall|i: int|
            0 <= i < record_keys(c).len() ==> (#[trigger] field_entries(
                join(record_lines(c), seq!['\n']),
            )[i]).0 == record_keys(c)[i],
        forall|i: int|
            0 <= i < 6 ==> ((#[trigger] field_entries(join(record_lines(c), seq!['\n']))[i]).1 matches Some(
                v,
            ) && trim(v) == record_values(c)[i]),
{
    reveal_strlit(": ");
    lemma_record_lines_one_line(c);
    lemma_record_values(c);
    lemma_record_keys(c);
    let ks = record_keys(c);
    let vs = record_values(c);
    let ls = record_lines(c);
    let nl = seq!['\n'];
    let x = join(ls, nl);
    lemma_split_lines(ls);
    let n = ls.len();
    assert(x == join(ls.drop_last(), nl) + nl + ls.last());
    assert(ls.last() == ls[n - 1]);
    assert(ls.last().len() > 0);
    assert(x.last() == ls.last().last());
    assert(ls.last().last() != '\n') by {
        assert(ls.last()[ls.last().len() - 1] == ls.last().last());
    }
    assert(lines(x) == ls.drop_last().map_values(|l: Seq<char>| strip_cr(l)).push(ls.last()));
    let es = field_entries(x);
    assert(es.len() == n);
    assert forall|i: int| 0 <= i < n implies ls[i] =~= ks[i] + seq![':'] + (seq![' '] + vs[i]) by {
        assert(": "@ =~= seq![':', ' ']);
    }
    assert forall|i: int| 0 <= i < n implies (#[trigger] es[i]).0 == ks[i] by {
        assert(field_key(ks[i]));
        if i < n - 1 {
            assert(lines(x)[i] == strip_cr(ls[i]));
            lemma_line_key_cr(ks[i], seq![' '] + vs[i]);
        } else {
            assert(lines(x)[i] == ls[i]);
            lemma_line_key(ks[i], seq![' '] + vs[i]);
        }
    }
    assert forall|i: int| 0 <= i < 6 implies ((#[trigger] es[i]).1 matches Some(v) && trim(v)
        == vs[i]) by {
        assert(field_key(ks[i]));
        lemma_line_value(ks[i], vs[i]);
        if i < n - 1 {
            assert(lines(x)[i] == strip_cr(ls[i]));
        } else {
            assert(lines(x)[i] == ls[i]);
        }
    }
}

/// In a recordable package's record, each of the first six keys gives its
/// value.
proof fn lemma_record_field(c: ControlView, i: int)
    requires
        recordable(c),
        0 <= i < 6,
    ensures
        spec_field(join(record_lines(c), seq!['\n']), record_keys(c)[i]) == Ok::<Seq<char>, Seq<char>>(
            record_values(c)[i],
        ),
{
    lemma_record_entries(c);
    lemma_record_keys(c);
    let es = field_entries(join(record_lines(c), seq!['\n']));
    let ks = record_keys(c);
    assert(es[i].0 == ks[i]);
    assert forall|j: int| i < j < es.len() implies (#[trigger] es[j]).0 != ks[i] by {
        assert(es[j].0 == ks[j]);
    }
    lemma_lookup_at(es, ks[i], i);
    assert(es[i].1 matches Some(v) && trim(v) == record_values(c)[i]);
}

/// In a recordable package's record, the fields that a record leaves out
/// are missing.
proof fn lemma_record_absent(c: ControlView, j: int)
    requires
        recordable(c),
        0 <= j < 6,
    ensures
        spec_field(join(record_lines(c), seq!['\n']), absent_keys()[j]) is Err,
{
    lemma_record_entries(c);
    lemma_record_keys(c);
    let es = field_entries(join(record_lines(c), seq!['\n']));
    let ks = record_keys(c);
    assert forall|k: int| 0 <= k < es.len() implies (#[trigger] es[k]).0 != absent_keys()[j] by {
        assert(es[k].0 == ks[k]);
    }
    lemma_lookup_none(es, absent_keys()[j]);
}

/// The paragraph of a recordable package's record parses, without its
/// relationship fields, to what `read_back` gives.
pub proof fn lemma_record_paragraph(c: ControlView)
    requires
        recordable(c),
    ensures
        spec_control(join(record_lines(c), seq!['\n']), false) == Ok::<ControlView, Seq<char>>(
            read_back(c),
        ),
{
    let x = join(record_lines(c), seq!['\n']);
    lemma_record_field(c, 0);
    lemma_record_field(c, 1);
    lemma_record_field(c, 2);
    lemma_record_field(c, 3);
    lemma_record_field(c, 4);
    lemma_record_field(c, 5);
    lemma_record_absent(c, 0);
    lemma_record_absent(c, 1);
    lemma_record_absent(c, 2);
    lemma_record_absent(c, 3);
    lemma_record_absent(c, 4);
    lemma_record_absent(c, 5);
    reveal(spec_control);
    assert(first_missing(x) is None);
    assert(field_or_empty(x, "Package"@) == c.package);
}

/// No two line ends stand next to each other in `s`.
pub open spec fn no_blank_line(s: Seq<char>) -> bool {
    forall|k: int| 0 <= k < s.len() - 1 ==> !(#[trigger] s[k] == '\n' && s[k + 1] == '\n')
}

/// A text ends at a paragraph boundary: it is empty, or it ends with a
/// blank line (two line ends).
pub open spec fn at_boundary(db: Seq<char>) -> bool {
    db.len() == 0 || (db.len() >= 2 && db[db.len() - 1] == '\n' && db[db.len() - 2] == '\n')
}

/// Lines that are not empty and hold no line end, joined with line ends,
/// leave no blank line.
proof fn lemma_join_no_blank_line(ls: Seq<Seq<char>>)
    requires
        ls.len() >= 1,
        forall|i: int| 0 <= i < ls.len() ==> !(#[trigger] ls[i]).contains('\n') && ls[i].len() > 0,
    ensures
        no_blank_line(join(ls, seq!['\n'])),
        join(ls, seq!['\n']).len() > 0,
        join(ls, seq!['\n'])[0] != '\n',
        join(ls, seq!['\n']).last() != '\n',
    decreases ls.len(),
{
    let nl = seq!['\n'];
    if ls.len() == 1 {
        let l = ls[0];
        assert(l[0] != '\n');
        assert(l[l.len() - 1] != '\n');
    } else {
        let a = ls.drop_last();
        assert forall|i: int| 0 <= i < a.len() implies !(#[trigger] a[i]).contains('\n') && a[i].len() > 0 by {
            assert(a[i] == ls[i]);
        }
        lemma_join_no_blank_line(a);
        let j = join(a, nl);
        let l = ls.last();
        assert(l == ls[ls.len() - 1]);
        let x = join(ls, nl);
        assert(x == j + nl + l);
        assert(x[0] == j[0]);
        assert(l[l.len() - 1] != '\n');
        assert(x.last() == l.last());
        assert forall|k: int| 0 <= k < x.len() - 1 implies !(#[trigger] x[k] == '\n' && x[k + 1] == '\n') by {
            if k < j.len() - 1 {
                assert(x[k] == j[k] && x[k + 1] == j[k + 1]);
            } else if k == j.len() - 1 {
                assert(x[k] == j.last());
            } else if k == j.len() {
                assert(x[k + 1] == l[0]);
            } else {
                assert(x[k] == l[k - j.len() - 1]);
            }
        }
    }
}

/// A paragraph without blank lines, followed by a blank line, splits into
/// that paragraph and an empty rest.
proof fn lemma_split_paragraph(x: Seq<char>)
    requires
        x.len() > 0,
        x.last() != '\n',
        no_blank_line(x),
    ensures
        split_seq(x + seq!['\n', '\n'], seq!['\n', '\n']) == seq![x, Seq::<char>::empty()],
{
    let p = seq!['\n', '\n'];
    let s = x + p;
    assert(s.subrange(x.len() as int, x.len() + 2int) =~= p);
    assert(matches_at(s, p, x.len() as int));
    assert forall|k: int| 0 <= k < x.len() implies !matches_at(s, p, k) by {
        if matches_at(s, p, k) {
            assert(s.subrange(k, k + 2)[0] == s[k] && s.subrange(k, k + 2)[1] == s[k + 1]);
            if k + 1 < x.len() {
                assert(x[k] == '\n' && x[k + 1] == '\n');
            } else {
                assert(x[k] == x.last());
            }
        }
    }
    lemma_find_seq_is(s, p, x.len() as int);
    assert(s.subrange(0, x.len() as int) =~= x);
    assert(s.subrange(x.len() + 2int, s.len() as int) =~= Seq::<char>::empty());
    assert(split_seq(Seq::<char>::empty(), p) == seq![Seq::<char>::empty()]);
}

/// Splitting a text that ends with a blank line, followed by text that
/// does not start with a line end, gives the paragraphs of the first text
/// but its last piece (empty, or a single line end), then the paragraphs of
/// that piece followed by the second text.
proof fn lemma_split_after_blank(a: Seq<char>, b: Seq<char>)
    requires
        a.len() >= 2,
        at_boundary(a),
        b.len() > 0,
        b[0] != '\n',
    ensures
        split_seq(a, seq!['\n', '\n']).len() >= 1,
        split_seq(a, seq!['\n', '\n']).last() == Seq::<char>::empty() || split_seq(
            a,
            seq!['\n', '\n'],
        ).last() == seq!['\n'],
        split_seq(a + b, seq!['\n', '\n']) == split_seq(a, seq!['\n', '\n']).drop_last() + split_seq(
            split_seq(a, seq!['\n', '\n']).last() + b,
            seq!['\n', '\n'],
        ),
    decreases a.len(),
{
    let p = seq!['\n', '\n'];
    let s = a + b;
    assert(a.subrange(a.len() - 2, a.len() as int) =~= p);
    assert(matches_at(a, p, a.len() - 2));
    lemma_find_seq(a, p);
    let i = find_seq(a, p)->Some_0;
    assert(matches_at(a, p, i));
    assert(i <= a.len() - 2);
    assert(s.subrange(i, i + 2) =~= a.subrange(i, i + 2));
    assert(matches_at(s, p, i));
    assert forall|k: int| 0 <= k < i implies !matches_at(s, p, k) by {
        assert(s.subrange(k, k + 2) =~= a.subrange(k, k + 2));
        assert(!matches_at(a, p, k));
    }
    lemma_find_seq_is(s, p, i);
    let a2 = a.subrange(i + 2, a.len() as int);
    assert(s.subrange(i + 2, s.len() as int) =~= a2 + b);
    assert(s.subrange(0, i) =~= a.subrange(0, i));
    assert(split_seq(a, p) == seq![a.subrange(0, i)] + split_seq(a2, p));
    if a2.len() < 2 {
        assert(split_seq(a2, p) == seq![a2]);
        assert((seq![a.subrange(0, i)] + seq![a2]).drop_last() =~= seq![a.subrange(0, i)]);
        assert((seq![a.subrange(0, i)] + seq![a2]).last() == a2);
        if a2.len() == 0 {
            assert(a2 =~= Seq::<char>::empty());
        } else {
            assert(a2[0] == a[a.len() - 1]);
            assert(a2 =~= seq!['\n']);
        }
    } else {
        assert(a2[a2.len() - 1] == a[a.len() - 1]);
        assert(a2[a2.len() - 2] == a[a.len() - 2]);
        lemma_split_after_blank(a2, b);
        let t = split_seq(a2, p).last();
        assert((seq![a.subrange(0, i)] + split_seq(a2, p)).drop_last() =~= seq![a.subrange(0, i)]
            + split_seq(a2, p).drop_last());
        assert((seq![a.subrange(0, i)] + split_seq(a2, p)).last() == t);
        assert(seq![a.subrange(0, i)] + (split_seq(a2, p).drop_last() + split_seq(t + b, p)) =~= seq![
            a.subrange(0, i),
        ] + split_seq(a2, p).drop_last() + split_seq(t + b, p));
    }
}

/// Parsing the paragraphs of two lists parses each in turn.
proof fn lemma_parsed_append(ps: Seq<Seq<char>>, qs: Seq<Seq<char>>, relations: bool)
    ensures
        parsed(ps + qs, relations) == parsed(ps, relations) + parsed(qs, relations),
    decreases qs.len(),
{
    if qs.len() == 0 {
        assert(ps + qs =~= ps);
        assert(parsed(ps, relations) + seq![] =~= parsed(ps, relations));
    } else {
        assert((ps + qs).drop_last() =~= ps + qs.drop_last());
        assert((ps + qs).last() == qs.last());
        lemma_parsed_append(ps, qs.drop_last(), relations);
        match spec_control(qs.last(), relations) {
            Ok(v) => {
                assert(parsed(ps, relations) + parsed(qs.drop_last(), relations).push(v) =~= (parsed(
                    ps,
                    relations,
                ) + parsed(qs.drop_last(), relations)).push(v));
            },
            Err(_) => {},
        }
    }
}

/// An empty paragraph does not parse.
proof fn lemma_empty_paragraph(relations: bool)
    ensures
        spec_control(Seq::<char>::empty(), relations) is Err,
{
    reveal(spec_control);
    let e = Seq::<char>::empty();
    assert(split_seq(e, seq!['\n']) == seq![e]);
    assert(lines(e) =~= Seq::<Seq<char>>::empty());
    assert(field_entries(e) =~= Seq::<(Seq<char>, Option<Seq<char>>)>::empty());
}

/// A lookup of a key skips an entry with another key in front.
proof fn lemma_lookup_skip_first(
    e0: (Seq<char>, Option<Seq<char>>),
    es: Seq<(Seq<char>, Option<Seq<char>>)>,
    key: Seq<char>,
)
    requires
        e0.0 != key,
    ensures
        lookup(seq![e0] + es, key) == lookup(es, key),
    decreases es.len(),
{
    if es.len() == 0 {
        assert(seq![e0] + es =~= seq![e0]);
        assert(seq![e0].drop_last() =~= Seq::<(Seq<char>, Option<Seq<char>>)>::empty());
        assert(seq![e0].last() == e0);
        assert(lookup(seq![e0], key) == lookup(Seq::<(Seq<char>, Option<Seq<char>>)>::empty(), key));
    } else {
        assert((seq![e0] + es).drop_last() =~= seq![e0] + es.drop_last());
        assert((seq![e0] + es).last() == es.last());
        lemma_lookup_skip_first(e0, es.drop_last(), key);
    }
}

/// A paragraph with a line end in front has an empty first line, and then
/// the lines of the paragraph.
proof fn lemma_lines_after_line_end(x: Seq<char>)
    requires
        x.len() > 0,
        x.last() != '\n',
    ensures
        lines(seq!['\n'] + x) == seq![Seq::<char>::empty()] + lines(x),
        field_entries(seq!['\n'] + x) == seq![(Seq::<char>::empty(), None::<Seq<char>>)]
            + field_entries(x),
{
    let e = Seq::<char>::empty();
    let nl = seq!['\n'];
    assert(e + nl + x =~= nl + x);
    assert(!e.contains('\n'));
    lemma_split_char_concat(e, x, '\n');
    crate::text::lemma_split_nonempty(x, nl);
    let ps = split_seq(x, nl);
    let qs = split_seq(nl + x, nl);
    assert(qs == seq![e] + ps);
    assert((nl + x).last() == x.last());
    assert(qs.drop_last() =~= seq![e] + ps.drop_last());
    assert(qs.last() == ps.last());
    assert(strip_cr(e) == e);
    assert(qs.drop_last().map_values(|l: Seq<char>| strip_cr(l)) =~= seq![e] + ps.drop_last().map_values(
        |l: Seq<char>| strip_cr(l),
    ));
    assert(lines(nl + x) =~= seq![e] + lines(x));
    assert(trim_start(e) == e);
    assert(trim_end(e) == e);
    assert(find_seq(e, seq![':']) is None);
    assert(line_entry(e) == (e, None::<Seq<char>>));
    assert(field_entries(nl + x) =~= seq![(e, None::<Seq<char>>)] + field_entries(x));
}

/// A paragraph with a line end in front parses as the paragraph does.
proof fn lemma_paragraph_after_line_end(x: Seq<char>, relations: bool)
    requires
        x.len() > 0,
        x.last() != '\n',
    ensures
        spec_control(seq!['\n'] + x, relations) == spec_control(x, relations),
{
    let y = seq!['\n'] + x;
    let e = Seq::<char>::empty();
    lemma_lines_after_line_end(x);
    let keys = seq![
        "Package"@,
        "Version"@,
        "Architecture"@,
        "Maintainer"@,
        "Description"@,
        "Priority"@,
        "Depends"@,
        "Recommends"@,
        "Suggests"@,
        "Enhances"@,
        "Pre-Depends"@,
        "Breaks"@,
        "Conflicts"@,
        "Filename"@,
        "Size"@,
        "MD5sum"@,
        "SHA1"@,
        "SHA256"@,
        "SHA512"@,
    ];
    reveal_strlit("Package");
    reveal_strlit("Version");
    reveal_strlit("Architecture");
    reveal_strlit("Maintainer");
    reveal_strlit("Description");
    reveal_strlit("Priority");
    reveal_strlit("Depends");
    reveal_strlit("Recommends");
    reveal_strlit("Suggests");
    reveal_strlit("Enhances");
    reveal_strlit("Pre-Depends");
    reveal_strlit("Breaks");
    reveal_strlit("Conflicts");
    reveal_strlit("Filename");
    reveal_strlit("Size");
    reveal_strlit("MD5sum");
    reveal_strlit("SHA1");
    reveal_strlit("SHA256");
    reveal_strlit("SHA512");
    assert forall|k: int| 0 <= k < keys.len() implies spec_field(y, #[trigger] keys[k]) == spec_field(
        x,
        keys[k],
    ) by {
        assert(keys[k].len() > 0);
        lemma_lookup_skip_first((e, None::<Seq<char>>), field_entries(x), keys[k]);
    }
    assert(spec_field(y, "Package"@) == spec_field(x, "Package"@)) by { assert(keys[0] == "Package"@); }
    assert(spec_field(y, "Version"@) == spec_field(x, "Version"@)) by { assert(keys[1] == "Version"@); }
    assert(spec_field(y, "Architecture"@) == spec_field(x, "Architecture"@)) by { assert(keys[2] == "Architecture"@); }
    assert(spec_field(y, "Maintainer"@) == spec_field(x, "Maintainer"@)) by { assert(keys[3] == "Maintainer"@); }
    assert(spec_field(y, "Description"@) == spec_field(x, "Description"@)) by { assert(keys[4] == "Description"@); }
    assert(spec_field(y, "Priority"@) == spec_field(x, "Priority"@)) by { assert(keys[5] == "Priority"@); }
    assert(spec_field(y, "Depends"@) == spec_field(x, "Depends"@)) by { assert(keys[6] == "Depends"@); }
    assert(spec_field(y, "Recommends"@) == spec_field(x, "Recommends"@)) by { assert(keys[7] == "Recommends"@); }
    assert(spec_field(y, "Suggests"@) == spec_field(x, "Suggests"@)) by { assert(keys[8] == "Suggests"@); }
    assert(spec_field(y, "Enhances"@) == spec_field(x, "Enhances"@)) by { assert(keys[9] == "Enhances"@); }
    assert(spec_field(y, "Pre-Depends"@) == spec_field(x, "Pre-Depends"@)) by { assert(keys[10] == "Pre-Depends"@); }
    assert(spec_field(y, "Breaks"@) == spec_field(x, "Breaks"@)) by { assert(keys[11] == "Breaks"@); }
    assert(spec_field(y, "Conflicts"@) == spec_field(x, "Conflicts"@)) by { assert(keys[12] == "Conflicts"@); }
    assert(spec_field(y, "Filename"@) == spec_field(x, "Filename"@)) by { assert(keys[13] == "Filename"@); }
    assert(spec_field(y, "Size"@) == spec_field(x, "Size"@)) by { assert(keys[14] == "Size"@); }
    assert(spec_field(y, "MD5sum"@) == spec_field(x, "MD5sum"@)) by { assert(keys[15] == "MD5sum"@); }
    assert(spec_field(y, "SHA1"@) == spec_field(x, "SHA1"@)) by { assert(keys[16] == "SHA1"@); }
    assert(spec_field(y, "SHA256"@) == spec_field(x, "SHA256"@)) by { assert(keys[17] == "SHA256"@); }
    assert(spec_field(y, "SHA512"@) == spec_field(x, "SHA512"@)) by { assert(keys[18] == "SHA512"@); }
    reveal(spec_control);
}

/// A paragraph made of a single line end does not parse.
proof fn lemma_line_end_paragraph(relations: bool)
    ensures
        spec_control(seq!['\n'], relations) is Err,
{
    reveal(spec_control);
    let e = Seq::<char>::empty();
    let nl = seq!['\n'];
    assert(e + nl + e =~= nl);
    assert(!e.contains('\n'));
    lemma_split_char_concat(e, e, '\n');
    assert(split_seq(e, nl) == seq![e]);
    assert(split_seq(nl, nl) == seq![e, e]);
    assert(seq![e, e].drop_last() =~= seq![e]);
    assert(lines(nl) =~= seq![e]);
    assert(trim_start(e) == e);
    assert(trim_end(e) == e);
    assert(find_seq(e, seq![':']) is None);
    assert(field_entries(nl) =~= seq![(e, None::<Seq<char>>)]);
    reveal_strlit("Package");
    assert("Package"@.len() > 0);
    assert(seq![(e, None::<Seq<char>>)].drop_last() =~= Seq::<(Seq<char>, Option<Seq<char>>)>::empty());
    assert(seq![(e, None::<Seq<char>>)].last() == (e, None::<Seq<char>>));
    assert(e != "Package"@);
    let es = seq![(e, None::<Seq<char>>)];
    assert(es.len() == 1);
    assert(lookup(es, "Package"@) == lookup(es.drop_last(), "Package"@));
    assert(lookup(Seq::<(Seq<char>, Option<Seq<char>>)>::empty(), "Package"@) is None);
    assert(lookup(field_entries(nl), "Package"@) is None);
}

/// Appending a paragraph that parses, and a blank line, to a text that ends
/// at a paragraph boundary appends the parsed paragraph to the packages it
/// lists, and ends at a paragraph boundary again.
proof fn lemma_dump_append(db: Seq<char>, x: Seq<char>, v: ControlView)
    requires
        at_boundary(db),
        x.len() > 0,
        x[0] != '\n',
        x.last() != '\n',
        no_blank_line(x),
        spec_control(x, false) == Ok::<ControlView, Seq<char>>(v),
    ensures
        at_boundary(db + x + seq!['\n', '\n']),
        spec_db_dump(db + x + seq!['\n', '\n']) == spec_db_dump(db).push(v),
{
    let pp = seq!['\n', '\n'];
    let nl = seq!['\n'];
    let e = Seq::<char>::empty();
    lemma_empty_paragraph(false);
    let y = x + pp;
    let db2 = db + y;
    if db.len() == 0 {
        lemma_split_paragraph(x);
        assert(parsed(seq![x, e], false) == seq![v]) by {
            assert(seq![x, e].drop_last() =~= seq![x]);
            assert(seq![x, e].last() == e);
            assert(seq![x].drop_last() =~= Seq::<Seq<char>>::empty());
            assert(seq![x].last() == x);
            assert(parsed(Seq::<Seq<char>>::empty(), false) == Seq::<ControlView>::empty());
            assert(parsed(seq![x], false) == Seq::<ControlView>::empty().push(v));
            assert(Seq::<ControlView>::empty().push(v) =~= seq![v]);
        }
        assert(db2 =~= y);
        assert(db =~= e);
        assert(split_seq(db, pp) == seq![e]);
        assert(seq![e].drop_last() =~= Seq::<Seq<char>>::empty());
        assert(seq![e].last() == e);
        assert(paragraphs(db) == seq![e]);
        assert(parsed(seq![e], false) == parsed(Seq::<Seq<char>>::empty(), false));
        assert(spec_db_dump(db) == Seq::<ControlView>::empty());
        assert(seq![v] =~= Seq::<ControlView>::empty().push(v));
    } else {
        assert(y[0] == x[0]);
        lemma_split_after_blank(db, y);
        let ps = split_seq(db, pp);
        let t = ps.last();
        let x2 = t + x;
        assert(t + y =~= x2 + pp);
        assert(spec_control(x2, false) == Ok::<ControlView, Seq<char>>(v) && x2.len() > 0
            && x2.last() != '\n' && no_blank_line(x2) && spec_control(t, false) is Err) by {
            if t == nl {
                lemma_paragraph_after_line_end(x, false);
                lemma_line_end_paragraph(false);
                assert(x2 == nl + x);
                assert forall|k: int| 0 <= k < x2.len() - 1 implies !(#[trigger] x2[k] == '\n' && x2[k
                    + 1] == '\n') by {
                    if k == 0 {
                        assert(x2[1] == x[0]);
                    } else {
                        assert(x2[k] == x[k - 1] && x2[k + 1] == x[k]);
                    }
                }
            } else {
                assert(x2 =~= x);
            }
        }
        lemma_split_paragraph(x2);
        assert(parsed(seq![x2, e], false) == seq![v]) by {
            assert(seq![x2, e].drop_last() =~= seq![x2]);
            assert(seq![x2, e].last() == e);
            assert(seq![x2].drop_last() =~= Seq::<Seq<char>>::empty());
            assert(seq![x2].last() == x2);
            assert(parsed(Seq::<Seq<char>>::empty(), false) == Seq::<ControlView>::empty());
            assert(parsed(seq![x2], false) == Seq::<ControlView>::empty().push(v));
            assert(Seq::<ControlView>::empty().push(v) =~= seq![v]);
        }
        assert(ps =~= ps.drop_last().push(t));
        assert(parsed(ps, false) == parsed(ps.drop_last(), false));
        lemma_parsed_append(ps.drop_last(), seq![x2, e], false);
        assert(parsed(ps.drop_last(), false) + seq![v] =~= parsed(ps.drop_last(), false).push(v));
    }
    assert(db2 =~= db + x + pp);
}

/// Installing a package appends its record and a line end to the database.
/// Where the database ended at a paragraph boundary and the package is
/// recordable, the packages that the database then lists are those it
/// listed and, after them, the package as `read_back` gives it; the
/// database again ends at a paragraph boundary; and looking up the
/// package's name finds a package of that name: this one, where none was
/// installed before.
pub proof fn lemma_record_read_back(db: Seq<char>, c: ControlView)
    requires
        at_boundary(db),
        recordable(c),
    ensures
        at_boundary(db + record_of(c) + seq!['\n']),
        spec_db_dump(db + record_of(c) + seq!['\n']) == spec_db_dump(db).push(read_back(c)),
        first_named(spec_db_dump(db + record_of(c) + seq!['\n']), c.package) is Some,
        first_named(spec_db_dump(db), c.package) is None ==> first_named(
            spec_db_dump(db + record_of(c) + seq!['\n']),
            c.package,
        ) == Some(read_back(c)),
{
    let nl = seq!['\n'];
    let ls = record_lines(c);
    let x = join(ls, nl);
    let v = read_back(c);
    assert(db + record_of(c) + nl == db + x + seq!['\n', '\n']) by {
        lemma_record_lines(c);
        assert(db + record_of(c) + nl =~= db + x + seq!['\n', '\n']);
    }
    assert(spec_control(x, false) == Ok::<ControlView, Seq<char>>(v)) by {
        lemma_record_paragraph(c);
    }
    assert(no_blank_line(x) && x.len() > 0 && x[0] != '\n' && x.last() != '\n') by {
        lemma_record_lines_one_line(c);
        lemma_join_no_blank_line(ls);
    }
    lemma_dump_append(db, x, v);
    let vs = spec_db_dump(db);
    assert(v.package == c.package);
    if first_named(vs, c.package) is None {
        lemma_first_named_push(vs, v, c.package);
    } else {
        lemma_first_named_keep(vs, c.package);
        assert(first_named(vs.push(v), c.package) == first_named(vs, c.package));
    }
}

} // verus!
