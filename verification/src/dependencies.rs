//! Package relationships: dependency names, version constraints, breakage
//! checks and the resolution of a package's dependencies into a graph.

use vstd::prelude::*;
use vstd::string::StrSliceExecFns;

use crate::cache::{
    CacheFiles, bad_name_msg, cache_lookup, check_installed, first_named, lemma_scan_without_relations,
    scan_exact, spec_cache_dir, spec_db_dump,
};
use crate::config::Config;
use crate::errors::{CacheError, InstallError, OpmError};
use crate::graph::DependencyGraph;
use crate::package::{ControlFile, ControlView};
use crate::text::{
    find_in, find_seq, lemma_find_char_absent, lemma_find_char_concat, lemma_find_seq,
    lemma_split_char_concat, pieces_of, push_str, ranges_within, same_text, split_ranges, split_seq,
    string_of, strings_view, to_chars, trim, trim_range,
};

verus! {

/// The package name of a relationship entry such as `libc6 (>= 2.4)`: the
/// text before the space that precedes the version constraint.
pub open spec fn spec_parse_name(name: Seq<char>) -> Seq<char> {
    match find_seq(name, seq!['(']) {
        Some(e) => name.subrange(0, e - 1),
        None => name,
    }
}

/// A relationship entry whose name can be cut off: any `(` has a one-byte
/// character before it.
pub open spec fn parse_name_ok(name: Seq<char>) -> bool {
    match find_seq(name, seq!['(']) {
        Some(e) => e >= 1 && (name[e - 1] as u32) < 128,
        None => true,
    }
}

/// The version constraint of a relationship entry: the text between the
/// first `(` and the first `)`.
pub open spec fn spec_get_version(pkg: Seq<char>) -> Option<Seq<char>> {
    match (find_seq(pkg, seq!['(']), find_seq(pkg, seq![')'])) {
        (Some(s), Some(e)) => Some(pkg.subrange(s + 1, e)),
        _ => None,
    }
}

/// An entry whose constraint can be cut out: the first `(` comes before the
/// first `)` where both occur.
pub open spec fn get_version_ok(pkg: Seq<char>) -> bool {
    match (find_seq(pkg, seq!['(']), find_seq(pkg, seq![')'])) {
        (Some(s), Some(e)) => s < e,
        _ => true,
    }
}

/// The Debian ordering of two version strings, as `deb_version` computes it:
/// -1, 0 or 1 for less, equal or greater.
pub uninterp spec fn debian_version_cmp(a: Seq<char>, b: Seq<char>) -> i8;

/// Trusted: calls `deb_version::compare_versions`, which compares two Debian
/// version strings, and turns the `Ordering` into -1, 0 or 1. The contract
/// claims that the result is a function of the two strings
/// (`debian_version_cmp`), lies in that range, and is 0 for equal strings
/// (the crate's first test); which order it computes otherwise is not
/// stated. Equal strings are compared without taking them apart; others
/// are cut at each run of non-digits, at a count of characters taken as a
/// count of bytes, which panics inside a character: `version_cuts_ok`
/// leaves those out.
#[verifier::external_body]
fn compare_versions(a: &str, b: &str) -> (r: i8)
    requires
        a@ == b@ || (version_cuts_ok(a@) && version_cuts_ok(b@)),
    ensures
        r == debian_version_cmp(a@, b@),
        -1 <= r <= 1,
        a@ == b@ ==> r == 0,
{
    match deb_version::compare_versions(a, b) {
        std::cmp::Ordering::Less => -1,
        std::cmp::Ordering::Equal => 0,
        std::cmp::Ordering::Greater => 1,
    }
}

/// The number of bytes that `c` takes in UTF-8.
pub open spec fn utf8_len(c: char) -> nat {
    if (c as u32) < 0x80 {
        1
    } else if (c as u32) < 0x800 {
        2
    } else if (c as u32) < 0x1_0000 {
        3
    } else {
        4
    }
}

/// The number of bytes that `s` takes in UTF-8.
pub open spec fn utf8_size(s: Seq<char>) -> nat
    decreases s.len(),
{
    if s.len() == 0 {
        0
    } else {
        utf8_size(s.drop_last()) + utf8_len(s.last())
    }
}

/// `c` is a decimal digit.
pub open spec fn is_digit(c: char) -> bool {
    '0' <= c <= '9'
}

/// The number of characters at the start of `s` that are decimal digits
/// (where `digits`) or that are not.
pub open spec fn run_len(s: Seq<char>, digits: bool) -> nat
    decreases s.len(),
{
    if s.len() == 0 || is_digit(s[0]) != digits {
        0
    } else {
        1 + run_len(s.drop_first(), digits)
    }
}

/// A run is no longer than the text it starts.
pub proof fn lemma_run_len_bound(s: Seq<char>, digits: bool)
    ensures
        run_len(s, digits) <= s.len(),
    decreases s.len(),
{
    if s.len() > 0 {
        lemma_run_len_bound(s.drop_first(), digits);
    }
}

/// Where `deb_version` cuts `s` after a run of `n` characters: at the end
/// where the run fills `s`, else at byte `n`. The number of characters
/// before the cut, where it falls between two characters.
pub open spec fn cut_after(s: Seq<char>, n: nat) -> Option<int> {
    if n == s.len() {
        Some(s.len() as int)
    } else if exists|k: int| 0 <= k <= s.len() && #[trigger] utf8_size(s.take(k)) == n {
        Some(choose|k: int| 0 <= k <= s.len() && #[trigger] utf8_size(s.take(k)) == n)
    } else {
        None
    }
}

/// `deb_version` takes `s` apart into runs of non-digits and of digits
/// without cutting inside a character: each cut after a run of non-digits
/// falls between characters. (Digits take one byte each, so the cut after
/// a run of digits always does.)
pub open spec fn runs_cut_ok(s: Seq<char>) -> bool
    decreases s.len(),
{
    if s.len() == 0 {
        true
    } else {
        match cut_after(s, run_len(s, false)) {
            None => false,
            Some(k) => {
                let rest = s.skip(k);
                let d = run_len(rest, true);
                proof {
                    lemma_run_len_bound(rest, true);
                    assert(s.take(0) =~= Seq::<char>::empty());
                    if k == 0 {
                        assert(rest =~= s);
                    }
                }
                runs_cut_ok(rest.skip(d as int))
            },
        }
    }
}

/// The text of a version after its epoch (what comes before the first
/// `:`).
pub open spec fn after_epoch(v: Seq<char>) -> Seq<char> {
    match find_seq(v, seq![':']) {
        Some(i) => v.skip(i + 1),
        None => v,
    }
}

/// The position of the last `-` in `v`.
pub open spec fn last_dash(v: Seq<char>) -> Option<int> {
    if exists|i: int| 0 <= i < v.len() && v[i] == '-' {
        Some(choose|i: int| 0 <= i < v.len() && v[i] == '-' && forall|j: int| i < j < v.len() ==> v[j] != '-')
    } else {
        None
    }
}

/// The upstream version and the Debian revision of `v`: what follows the
/// epoch, before and after its last `-`.
pub open spec fn version_parts(v: Seq<char>) -> (Seq<char>, Seq<char>) {
    let t = after_epoch(v);
    match last_dash(t) {
        Some(i) => (t.take(i), t.skip(i + 1)),
        None => (t, Seq::<char>::empty()),
    }
}

/// A version that `deb_version` takes apart without cutting inside a
/// character.
pub open spec fn version_cuts_ok(v: Seq<char>) -> bool {
    runs_cut_ok(version_parts(v).0) && runs_cut_ok(version_parts(v).1)
}

/// The words of a version constraint such as `>= 1.2`.
pub open spec fn constraint_words(depv: Seq<char>) -> Seq<Seq<char>> {
    split_seq(depv, seq![' '])
}

/// A constraint that can be checked: an operator and a version, equal to
/// `pkgv` or, with `pkgv`, cut cleanly by the comparison.
pub open spec fn check_version_ok(pkgv: Seq<char>, depv: Seq<char>) -> bool {
    &&& constraint_words(depv).len() >= 2
    &&& (pkgv == constraint_words(depv)[1] || (version_cuts_ok(pkgv) && version_cuts_ok(
        constraint_words(depv)[1],
    )))
}

/// Version `pkgv` satisfies the relation `op` to version `number`: `=`,
/// `>>`, `<<`, `>=` or `<=`; any other operator is never satisfied.
pub open spec fn satisfies(pkgv: Seq<char>, op: Seq<char>, number: Seq<char>) -> bool {
    let r = debian_version_cmp(pkgv, number);
    if op == "="@ {
        r == 0
    } else if op == ">>"@ {
        r > 0
    } else if op == "<<"@ {
        r < 0
    } else if op == ">="@ {
        r > 0 || r == 0
    } else if op == "<="@ {
        r < 0 || r == 0
    } else {
        false
    }
}

/// Version `pkgv` satisfies the constraint `depv`, whose first word is the
/// operator and whose second word is the version.
pub open spec fn spec_check_version(pkgv: Seq<char>, depv: Seq<char>) -> bool {
    satisfies(pkgv, constraint_words(depv)[0], constraint_words(depv)[1])
}

/// The alternatives of a relationship entry such as `a (>= 1) | b`: its name
/// part, trimmed and split at ` | `.
pub open spec fn alternatives(dep: Seq<char>) -> Seq<Seq<char>> {
    split_seq(trim(spec_parse_name(dep)), seq![' ', '|', ' '])
}

/// The database has a package named `name`.
pub open spec fn installed(db: Seq<char>, name: Seq<char>) -> bool {
    first_named(spec_db_dump(db), name) is Some
}

/// One of the alternatives of the entries `deps` is installed.
pub open spec fn any_installed(db: Seq<char>, deps: Seq<Seq<char>>) -> bool {
    exists|i: int, j: int|
        0 <= i < deps.len() && 0 <= j < alternatives(deps[i]).len() && installed(
            db,
            #[trigger] alternatives(deps[i])[j],
        )
}

/// An entry written as a name, a space and a parenthesised constraint, where
/// neither the name nor the constraint holds a parenthesis, can be cut
/// apart, and gives back that name and that constraint.
pub proof fn lemma_entry_parts(name: Seq<char>, constraint: Seq<char>)
    requires
        !name.contains('(') && !name.contains(')'),
        !constraint.contains('(') && !constraint.contains(')'),
    ensures
        parse_name_ok(name + " ("@ + constraint + ")"@),
        get_version_ok(name + " ("@ + constraint + ")"@),
        spec_parse_name(name + " ("@ + constraint + ")"@) == name,
        spec_get_version(name + " ("@ + constraint + ")"@) == Some(constraint),
{
    reveal_strlit(" (");
    reveal_strlit(")");
    let e = name + " ("@ + constraint + ")"@;
    let a = name + seq![' '];
    let b = seq!['('] + constraint + seq![')'];
    assert(e =~= a + b);
    assert(!a.contains('(')) by {
        if a.contains('(') {
            let k = choose|k: int| 0 <= k < a.len() && a[k] == '(';
            assert(name[k] == '(');
        }
    }
    lemma_find_char_concat(a, b, '(');
    assert(b.subrange(0, 1) =~= seq!['(']);
    assert(find_seq(b, seq!['(']) == Some(0int));
    let a2 = name + seq![' ', '('] + constraint;
    assert(e =~= a2 + seq![')']);
    assert(!a2.contains(')')) by {
        if a2.contains(')') {
            let k = choose|k: int| 0 <= k < a2.len() && a2[k] == ')';
            if k < name.len() {
                assert(name[k] == ')');
            } else if k >= name.len() + 2 {
                assert(constraint[k - name.len() - 2] == ')');
            }
        }
    }
    lemma_find_char_concat(a2, seq![')'], ')');
    assert(seq![')'].subrange(0, 1) =~= seq![')']);
    assert(find_seq(seq![')'], seq![')']) == Some(0int));
    assert(e.subrange(0, name.len() as int) =~= name);
    assert(e.subrange(name.len() + 2int, a2.len() as int) =~= constraint);
}

/// The message of a breakage.
pub open spec fn breaks_msg() -> Seq<char> {
    "The package you're trying to install will break/conflict with others"@
}

/// The package name of a relationship entry.
pub fn parse_name(name: &str) -> (r: &str)
    requires
        parse_name_ok(name@),
    ensures
        r@ == spec_parse_name(name@),
{
    let t = to_chars(name);
    let mut open: Vec<char> = Vec::new();
    open.push('(');
    assert(open@ =~= seq!['(']);
    assert(t@.subrange(0, t.len() as int) =~= t@);
    match find_in(&t, 0, t.len(), &open) {
        Some(e) => {
            proof {
                lemma_find_seq(name@, seq!['(']);
            }
            name.substring_char(0, e - 1)
        },
        None => name,
    }
}

/// The version constraint of a relationship entry, where it has one.
pub fn get_version(pkg: &str) -> (r: Option<&str>)
    requires
        get_version_ok(pkg@),
    ensures
        match spec_get_version(pkg@) {
            Some(v) => r matches Some(s) && s@ == v,
            None => r is None,
        },
{
    let t = to_chars(pkg);
    let mut open: Vec<char> = Vec::new();
    open.push('(');
    assert(open@ =~= seq!['(']);
    let mut close: Vec<char> = Vec::new();
    close.push(')');
    assert(close@ =~= seq![')']);
    assert(t@.subrange(0, t.len() as int) =~= t@);
    let start = find_in(&t, 0, t.len(), &open);
    let end = find_in(&t, 0, t.len(), &close);
    match (start, end) {
        (Some(s), Some(e)) => {
            proof {
                lemma_find_seq(pkg@, seq!['(']);
                lemma_find_seq(pkg@, seq![')']);
            }
            Some(pkg.substring_char(s + 1, e))
        },
        _ => None,
    }
}

/// Whether version `pkgv` satisfies the constraint `depv` (such as
/// `>= 1.2`).
pub fn check_version(pkgv: &str, depv: &str) -> (r: bool)
    requires
        check_version_ok(pkgv@, depv@),
    ensures
        r == spec_check_version(pkgv@, depv@),
        constraint_words(depv@)[1] == pkgv@ ==> (r <==> (constraint_words(depv@)[0] == "="@
            || constraint_words(depv@)[0] == ">="@ || constraint_words(depv@)[0] == "<="@)),
{
    let t = to_chars(depv);
    let mut space: Vec<char> = Vec::new();
    space.push(' ');
    assert(space@ =~= seq![' ']);
    assert(t@.subrange(0, t.len() as int) =~= t@);
    let words = split_ranges(&t, 0, t.len(), &space);
    let ghost ws = constraint_words(depv@);
    let a = words[0];
    let b = words[1];
    assert(words@[0].0 <= words@[0].1);
    assert(words@[0].1 <= t.len());
    assert(words@[1].0 <= words@[1].1);
    assert(words@[1].1 <= t.len());
    assert(pieces_of(t@, words@)[0] == t@.subrange(a.0 as int, a.1 as int));
    assert(pieces_of(t@, words@)[1] == t@.subrange(b.0 as int, b.1 as int));
    let sig = string_of(&t, a.0, a.1);
    let number = string_of(&t, b.0, b.1);
    let result = compare_versions(pkgv, number.as_str());
    proof {
        lemma_operators();
    }
    let s = sig.as_str();
    if same_text(s, "=") {
        result == 0
    } else if same_text(s, ">>") {
        result == 1
    } else if same_text(s, "<<") {
        result == -1
    } else if same_text(s, ">=") {
        result == 1 || result == 0
    } else if same_text(s, "<=") {
        result == -1 || result == 0
    } else {
        false
    }
}

/// The five operators are different words without spaces.
proof fn lemma_operators()
    ensures
        "="@ != ">>"@ && "="@ != "<<"@ && "="@ != ">="@ && "="@ != "<="@,
        ">>"@ != "<<"@ && ">>"@ != ">="@ && ">>"@ != "<="@,
        "<<"@ != ">="@ && "<<"@ != "<="@ && ">="@ != "<="@,
        !"="@.contains(' ') && !">>"@.contains(' ') && !"<<"@.contains(' '),
        !">="@.contains(' ') && !"<="@.contains(' '),
{
    reveal_strlit("=");
    reveal_strlit(">>");
    reveal_strlit("<<");
    reveal_strlit(">=");
    reveal_strlit("<=");
    assert(">>"@[0] == '>' && ">>"@[1] == '>');
    assert("<<"@[0] == '<' && "<<"@[1] == '<');
    assert(">="@[0] == '>' && ">="@[1] == '=');
    assert("<="@[0] == '<' && "<="@[1] == '=');
}

/// The words of a constraint written as an operator, a space and a version
/// are that operator and that version.
pub proof fn lemma_constraint_words(op: Seq<char>, v: Seq<char>)
    requires
        !op.contains(' '),
        !v.contains(' '),
    ensures
        constraint_words(op + seq![' '] + v) == seq![op, v],
{
    lemma_split_char_concat(op, v, ' ');
    lemma_find_char_absent(v, ' ');
}

/// For every version `pkgv` and every version `v` without spaces, a check
/// against `>= v` holds exactly when one against `<< v` fails, `<= v`
/// exactly when `>> v` fails, and `= v` exactly when both `>= v` and `<= v`
/// hold.
pub proof fn lemma_constraint_complements(pkgv: Seq<char>, v: Seq<char>)
    requires
        !v.contains(' '),
    ensures
        spec_check_version(pkgv, ">= "@ + v) == !spec_check_version(pkgv, "<< "@ + v),
        spec_check_version(pkgv, "<= "@ + v) == !spec_check_version(pkgv, ">> "@ + v),
        spec_check_version(pkgv, "= "@ + v) == (spec_check_version(pkgv, ">= "@ + v)
            && spec_check_version(pkgv, "<= "@ + v)),
{
    lemma_operators();
    reveal_strlit("=");
    reveal_strlit(">>");
    reveal_strlit("<<");
    reveal_strlit(">=");
    reveal_strlit("<=");
    reveal_strlit("= ");
    reveal_strlit(">> ");
    reveal_strlit("<< ");
    reveal_strlit(">= ");
    reveal_strlit("<= ");
    assert("= "@ =~= "="@ + seq![' ']);
    assert(">> "@ =~= ">>"@ + seq![' ']);
    assert("<< "@ =~= "<<"@ + seq![' ']);
    assert(">= "@ =~= ">="@ + seq![' ']);
    assert("<= "@ =~= "<="@ + seq![' ']);
    lemma_constraint_words("="@, v);
    lemma_constraint_words(">>"@, v);
    lemma_constraint_words("<<"@, v);
    lemma_constraint_words(">="@, v);
    lemma_constraint_words("<="@, v);
}

/// The alternatives of a relationship entry.
pub fn dependency_alternatives(dep: &str) -> (r: Vec<String>)
    requires
        parse_name_ok(dep@),
    ensures
        strings_view(r@) == alternatives(dep@),
{
    let name = parse_name(dep);
    let t = to_chars(name);
    assert(t@.subrange(0, t.len() as int) =~= t@);
    let (a, b) = trim_range(&t, 0, t.len());
    let mut bar: Vec<char> = Vec::new();
    bar.push(' ');
    bar.push('|');
    bar.push(' ');
    assert(bar@ =~= seq![' ', '|', ' ']);
    let rs = split_ranges(&t, a, b, &bar);
    let ghost ps = alternatives(dep@);
    let mut out: Vec<String> = Vec::new();
    let mut k: usize = 0;
    while k < rs.len()
        invariant
            ranges_within(rs@, a as int, b as int),
            b <= t.len(),
            pieces_of(t@, rs@) == ps,
            k <= rs.len(),
            out.len() == k,
            forall|j: int| 0 <= j < k ==> (#[trigger] out@[j])@ == ps[j],
        decreases rs.len() - k,
    {
        let r = rs[k];
        assert(rs@[k as int].0 <= rs@[k as int].1);
        assert(rs@[k as int].1 <= b);
        assert(pieces_of(t@, rs@)[k as int] == t@.subrange(r.0 as int, r.1 as int));
        out.push(string_of(&t, r.0, r.1));
        k = k + 1;
    }
    assert(strings_view(out@) =~= ps);
    out
}

/// Fails with a breakage where one of the alternatives of the entries
/// `pkgs` (the Breaks or Conflicts of a package) is installed.
pub fn check_if_breaks(config: &Config, db: &str, pkgs: &Vec<String>) -> (res: Result<(), InstallError>)
    requires
        forall|i: int| 0 <= i < pkgs.len() ==> parse_name_ok(#[trigger] pkgs@[i]@),
    ensures
        !any_installed(db@, strings_view(pkgs@)) ==> res is Ok,
        any_installed(db@, strings_view(pkgs@)) ==> (res matches Err(InstallError::Breaks(m)) && m@
            == breaks_msg()),
{
    let ghost deps = strings_view(pkgs@);
    let mut i: usize = 0;
    while i < pkgs.len()
        invariant
            i <= pkgs.len(),
            deps == strings_view(pkgs@),
            forall|k: int| 0 <= k < pkgs.len() ==> parse_name_ok(#[trigger] pkgs@[k]@),
            forall|k: int, j: int|
                0 <= k < i && 0 <= j < alternatives(deps[k]).len() ==> !installed(
                    db@,
                    #[trigger] alternatives(deps[k])[j],
                ),
        decreases pkgs.len() - i,
    {
        let alts = dependency_alternatives(pkgs[i].as_str());
        let mut j: usize = 0;
        while j < alts.len()
            invariant
                i < pkgs.len(),
                deps == strings_view(pkgs@),
                strings_view(alts@) == alternatives(deps[i as int]),
                j <= alts.len(),
                forall|m: int| 0 <= m < j ==> !installed(db@, #[trigger] alternatives(deps[i as int])[m]),
            decreases alts.len() - j,
        {
            assert(strings_view(alts@)[j as int] == alts@[j as int]@);
            if check_installed(config, db, alts[j].as_str()).is_some() {
                assert(installed(db@, alternatives(deps[i as int])[j as int]));
                return Err(InstallError::Breaks("The package you're trying to install will break/conflict with others".to_owned()));
            }
            j = j + 1;
        }
        i = i + 1;
    }
    Ok(())
}


/// The names among `names` that the database does not have.
pub open spec fn not_installed(db: Seq<char>, names: Seq<Seq<char>>) -> Seq<Seq<char>>
    decreases names.len(),
{
    if names.len() == 0 {
        seq![]
    } else {
        let rest = not_installed(db, names.drop_last());
        if installed(db, names.last()) {
            rest
        } else {
            rest.push(names.last())
        }
    }
}

/// The alternatives of the entries `deps` that are not installed, in order.
pub open spec fn wanted(db: Seq<char>, deps: Seq<Seq<char>>) -> Seq<Seq<char>>
    decreases deps.len(),
{
    if deps.len() == 0 {
        seq![]
    } else {
        wanted(db, deps.drop_last()) + not_installed(db, alternatives(deps.last()))
    }
}

/// Of a list of names, those left to resolve are exactly the names that
/// the installed-package database has no package of.
pub proof fn lemma_not_installed_exactly(db: Seq<char>, names: Seq<Seq<char>>)
    ensures
        forall|x: Seq<char>|
            #[trigger] not_installed(db, names).contains(x) <==> (names.contains(x) && first_named(
                spec_db_dump(db),
                x,
            ) is None),
    decreases names.len(),
{
    if names.len() > 0 {
        let front = names.drop_last();
        lemma_not_installed_exactly(db, front);
        let rest = not_installed(db, front);
        assert forall|x: Seq<char>|
            #[trigger] not_installed(db, names).contains(x) <==> (names.contains(x) && first_named(
                spec_db_dump(db),
                x,
            ) is None) by {
            if not_installed(db, names).contains(x) {
                if rest.contains(x) {
                    let k = choose|k: int| 0 <= k < front.len() && front[k] == x;
                    assert(names[k] == x);
                } else {
                    let k = choose|k: int| 0 <= k < not_installed(db, names).len() && not_installed(db, names)[k] == x;
                    if k < rest.len() {
                        assert(rest[k] == x);
                    }
                    assert(names[names.len() - 1] == x);
                }
            }
            if names.contains(x) && first_named(spec_db_dump(db), x) is None {
                let k = choose|k: int| 0 <= k < names.len() && names[k] == x;
                if k < names.len() - 1 {
                    assert(front[k] == x);
                    assert(rest.contains(x));
                    let m = choose|m: int| 0 <= m < rest.len() && rest[m] == x;
                    assert(not_installed(db, names)[m] == x);
                } else {
                    let r2 = rest.push(x);
                    assert(r2[r2.len() - 1] == x);
                }
            }
        }
    }
}

/// The names resolved for a list of relationship entries are exactly the
/// alternatives of the entries that the installed-package database has no
/// package of: every alternative not installed is among them, and no
/// installed one is.
pub proof fn lemma_wanted_exactly(db: Seq<char>, deps: Seq<Seq<char>>)
    ensures
        forall|x: Seq<char>|
            #[trigger] wanted(db, deps).contains(x) <==> ((exists|i: int, j: int|
                0 <= i < deps.len() && 0 <= j < alternatives(deps[i]).len()
                    && #[trigger] alternatives(deps[i])[j] == x) && first_named(spec_db_dump(db), x) is None),
    decreases deps.len(),
{
    if deps.len() > 0 {
        let front = deps.drop_last();
        lemma_wanted_exactly(db, front);
        let last = alternatives(deps.last());
        lemma_not_installed_exactly(db, last);
        let w0 = wanted(db, front);
        let n = not_installed(db, last);
        assert(wanted(db, deps) == w0 + n);
        assert forall|x: Seq<char>|
            #[trigger] wanted(db, deps).contains(x) <==> ((exists|i: int, j: int|
                0 <= i < deps.len() && 0 <= j < alternatives(deps[i]).len()
                    && #[trigger] alternatives(deps[i])[j] == x) && first_named(spec_db_dump(db), x) is None) by {
            if wanted(db, deps).contains(x) {
                let k = choose|k: int| 0 <= k < (w0 + n).len() && (w0 + n)[k] == x;
                if k < w0.len() {
                    assert(w0[k] == x);
                    assert(w0.contains(x));
                    let (i, j) = choose|i: int, j: int|
                        0 <= i < front.len() && 0 <= j < alternatives(front[i]).len()
                            && #[trigger] alternatives(front[i])[j] == x;
                    assert(deps[i] == front[i]);
                } else {
                    assert(n[k - w0.len()] == x);
                    assert(n.contains(x));
                    let j = choose|j: int| 0 <= j < last.len() && last[j] == x;
                    assert(alternatives(deps[deps.len() - 1])[j] == x);
                }
            }
            if (exists|i: int, j: int|
                0 <= i < deps.len() && 0 <= j < alternatives(deps[i]).len()
                    && #[trigger] alternatives(deps[i])[j] == x) && first_named(spec_db_dump(db), x) is None {
                let (i, j) = choose|i: int, j: int|
                    0 <= i < deps.len() && 0 <= j < alternatives(deps[i]).len()
                        && #[trigger] alternatives(deps[i])[j] == x;
                if i < deps.len() - 1 {
                    assert(front[i] == deps[i]);
                    assert(alternatives(front[i])[j] == x);
                    assert(w0.contains(x));
                    let k = choose|k: int| 0 <= k < w0.len() && w0[k] == x;
                    assert((w0 + n)[k] == x);
                } else {
                    assert(last[j] == x);
                    assert(last.contains(x));
                    assert(n.contains(x));
                    let k = choose|k: int| 0 <= k < n.len() && n[k] == x;
                    assert((w0 + n)[w0.len() + k] == x);
                }
            }
        }
    }
}

/// The breakage check of a list of Breaks/Conflicts entries fails exactly
/// when one of the alternatives they name is a package that the
/// installed-package database lists.
pub proof fn lemma_breaks_exactly(db: Seq<char>, deps: Seq<Seq<char>>)
    ensures
        any_installed(db, deps) <==> exists|i: int, j: int|
            0 <= i < deps.len() && 0 <= j < alternatives(deps[i]).len() && (first_named(
                spec_db_dump(db),
                #[trigger] alternatives(deps[i])[j],
            ) is Some),
{
}

/// Why a dependency cannot be resolved.
pub enum ResolveFailure {
    NoCache,
    BadName(Seq<char>),
    NotFound(Seq<char>),
    Unsatisfied(Seq<char>),
}

/// The package that a cache lookup of `name` finds, or why it finds none.
pub open spec fn lookup_outcome(files: &CacheFiles, name: Seq<char>) -> Result<ControlView, ResolveFailure> {
    if !files.exists {
        Err(ResolveFailure::NoCache)
    } else {
        match scan_exact(files.entries@, name, false) {
            Ok(Some(v)) => Ok(v),
            Ok(None) => Err(ResolveFailure::NotFound(name)),
            Err(path) => Err(ResolveFailure::BadName(path)),
        }
    }
}

/// The message for a dependency whose version is not satisfied.
pub open spec fn unsatisfied_msg(dep: ControlView, pkg: ControlView) -> Seq<char> {
    "Version "@ + dep.version + " ("@ + dep.package + ") is not satisfied! Need version "@
        + pkg.version + " ("@ + pkg.package + ")"@
}

/// A dependency's version field that carries a constraint which the
/// package's version does not meet.
pub open spec fn version_failure(pkg: ControlView, dep: ControlView) -> Option<Seq<char>> {
    match spec_get_version(dep.version) {
        Some(ver) => if !spec_check_version(ver, pkg.version) {
            Some(unsatisfied_msg(dep, pkg))
        } else {
            None
        },
        None => None,
    }
}

/// The first of `names` that cannot be resolved for `pkg`, and why.
pub open spec fn first_failure(files: &CacheFiles, pkg: ControlView, names: Seq<Seq<char>>) -> Option<ResolveFailure>
    decreases names.len(),
{
    if names.len() == 0 {
        None
    } else {
        match first_failure(files, pkg, names.drop_last()) {
            Some(f) => Some(f),
            None => match lookup_outcome(files, names.last()) {
                Err(f) => Some(f),
                Ok(v) => match version_failure(pkg, v) {
                    Some(m) => Some(ResolveFailure::Unsatisfied(m)),
                    None => None,
                },
            },
        }
    }
}

/// The package that a cache lookup of `name` finds.
pub open spec fn looked_up(files: &CacheFiles, name: Seq<char>) -> ControlView {
    lookup_outcome(files, name)->Ok_0
}

/// The version field of a dependency can be checked against `pkg`: where it
/// carries a constraint, the constraint and `pkg`'s version are well formed.
pub open spec fn version_checkable(pkg: ControlView, dep: ControlView) -> bool {
    &&& get_version_ok(dep.version)
    &&& match spec_get_version(dep.version) {
        Some(ver) => check_version_ok(ver, pkg.version),
        None => true,
    }
}

/// The packages that a resolution of `names` for `pkg` reaches have
/// version fields that can be checked against `pkg`: each name looked up
/// before any failure.
pub open spec fn reached_checkable(files: &CacheFiles, pkg: ControlView, names: Seq<Seq<char>>) -> bool {
    forall|k: int|
        0 <= k < names.len() && first_failure(files, pkg, names.take(k)) is None ==> (
        #[trigger] lookup_outcome(files, names[k]) matches Ok(v) ==> version_checkable(pkg, v))
}

/// The message of a dependency that the cache does not have.
pub open spec fn no_package_msg() -> Seq<char> {
    "No package was found ..."@
}

/// The entries of an optional relationship list can be named.
pub open spec fn entries_ok(deps: Option<Seq<Seq<char>>>) -> bool {
    match deps {
        Some(d) => forall|i: int| 0 <= i < d.len() ==> parse_name_ok(#[trigger] d[i]),
        None => true,
    }
}

/// A failure found in a prefix of the names is the failure of all of them.
proof fn lemma_failure_prefix(files: &CacheFiles, pkg: ControlView, names: Seq<Seq<char>>, m: int)
    requires
        0 <= m <= names.len(),
        first_failure(files, pkg, names.take(m)) is Some,
    ensures
        first_failure(files, pkg, names) == first_failure(files, pkg, names.take(m)),
    decreases names.len() - m,
{
    if m < names.len() {
        assert(names.take(m + 1).drop_last() =~= names.take(m));
        lemma_failure_prefix(files, pkg, names, m + 1);
    } else {
        assert(names.take(m) =~= names);
    }
}

/// The alternatives of `deps` that the database does not have.
fn wanted_names(config: &Config, db: &str, deps: &Vec<String>) -> (r: Vec<String>)
    requires
        forall|i: int| 0 <= i < deps.len() ==> parse_name_ok(#[trigger] deps@[i]@),
    ensures
        strings_view(r@) == wanted(db@, strings_view(deps@)),
{
    let ghost ds = strings_view(deps@);
    let mut out: Vec<String> = Vec::new();
    let mut i: usize = 0;
    while i < deps.len()
        invariant
            i <= deps.len(),
            ds == strings_view(deps@),
            forall|k: int| 0 <= k < deps.len() ==> parse_name_ok(#[trigger] deps@[k]@),
            strings_view(out@) == wanted(db@, ds.take(i as int)),
        decreases deps.len() - i,
    {
        let alts = dependency_alternatives(deps[i].as_str());
        let ghost before = strings_view(out@);
        let ghost av = alternatives(ds[i as int]);
        let mut j: usize = 0;
        while j < alts.len()
            invariant
                i < deps.len(),
                ds == strings_view(deps@),
                strings_view(alts@) == av,
                j <= alts.len(),
                strings_view(out@) == before + not_installed(db@, av.take(j as int)),
            decreases alts.len() - j,
        {
            assert(av.take(j + 1).drop_last() =~= av.take(j as int));
            assert(av.take(j + 1).last() == alts@[j as int]@);
            if check_installed(config, db, alts[j].as_str()).is_none() {
                let ghost o = out@;
                out.push(alts[j].clone());
                assert(strings_view(out@) =~= strings_view(o).push(alts@[j as int]@));
            }
            j = j + 1;
        }
        assert(av.take(alts.len() as int) =~= av);
        assert(ds.take(i + 1).drop_last() =~= ds.take(i as int));
        assert(ds.take(i + 1).last() == ds[i as int]);
        i = i + 1;
    }
    assert(ds.take(deps.len() as int) =~= ds);
    out
}

/// The message for a dependency whose version is not satisfied.
fn unsatisfied_message(dep: &ControlFile, pkg: &ControlFile) -> (r: String)
    ensures
        r@ == unsatisfied_msg(dep@, pkg@),
{
    let mut m = "Version ".to_owned();
    push_str(&mut m, dep.version.as_str());
    push_str(&mut m, " (");
    push_str(&mut m, dep.package.as_str());
    push_str(&mut m, ") is not satisfied! Need version ");
    push_str(&mut m, pkg.version.as_str());
    push_str(&mut m, " (");
    push_str(&mut m, pkg.package.as_str());
    push_str(&mut m, ")");
    m
}

/// Resolves the dependencies `deps` of `pkg` into `depgraph`: each
/// alternative of each entry that the database `db` does not have is looked
/// up in the cache, its version constraint (if its version field carries
/// one) is checked against `pkg`'s version, and where it is not yet in the
/// graph it is registered as a dependency of `pkg` (and its own
/// dependencies resolved in turn). A package without dependencies is
/// registered as depending on nothing. Unless `force` is set, a dependency
/// that breaks or conflicts with an installed package is refused.
pub fn get_dependencies(
    config: &Config,
    db: &str,
    files: &CacheFiles,
    pkg: ControlFile,
    deps: Option<Vec<String>>,
    depgraph: &mut DependencyGraph,
    force: bool,
) -> (res: Result<(), OpmError>)
    requires
        old(depgraph).wf(),
        forall|i: int|
            deps is Some && 0 <= i < deps->Some_0.len() ==> parse_name_ok(#[trigger] deps->Some_0@[i]@),
        deps matches Some(d) ==> reached_checkable(files, pkg@, wanted(db@, strings_view(d@))),
    ensures
        final(depgraph).wf(),
        match deps {
            Some(d) => if d.len() > 0 {
                let names = wanted(db@, strings_view(d@));
                match first_failure(files, pkg@, names) {
                    None => res is Ok && {
                        let old_reg = old(depgraph).registered();
                        let reg = final(depgraph).registered();
                        let edges = final(depgraph).edges();
                        &&& old_reg.subset_of(reg)
                        &&& old(depgraph).edges().subset_of(edges)
                        &&& forall|k: int| 0 <= k < names.len() ==> reg.contains(Some(#[trigger] looked_up(files, names[k])))
                        &&& forall|v: Option<ControlView>| #[trigger] reg.contains(v) ==> old_reg.contains(v) || v == Some(pkg@)
                            || exists|k: int| 0 <= k < names.len() && v == Some(#[trigger] looked_up(files, names[k]))
                        &&& forall|e: (Option<ControlView>, Option<ControlView>)| #[trigger] edges.contains(e) ==> old(depgraph).edges().contains(e)
                            || exists|k: int| 0 <= k < names.len() && e == (Some(pkg@), Some(#[trigger] looked_up(files, names[k])))
                                && !old_reg.contains(Some(looked_up(files, names[k])))
                        &&& forall|k: int| 0 <= k < names.len() && !old_reg.contains(Some(#[trigger] looked_up(files, names[k])))
                            && looked_up(files, names[k]) != pkg@ ==> edges.contains((Some(pkg@), Some(looked_up(files, names[k]))))
                    },
                    Some(ResolveFailure::NoCache) => res matches Err(OpmError::Cache(CacheError::NoCache(p))) && p@ == spec_cache_dir(config),
                    Some(ResolveFailure::BadName(path)) => res matches Err(OpmError::Cache(CacheError::UnexError { msg, err }))
                        && msg@ == bad_name_msg(path) && err is None,
                    Some(ResolveFailure::NotFound(_)) => res matches Err(OpmError::Install(InstallError::Error(m))) && m@ == no_package_msg(),
                    Some(ResolveFailure::Unsatisfied(msg)) => res matches Err(OpmError::Install(InstallError::Error(m))) && m@ == msg,
                }
            } else {
                res is Ok && final(depgraph).registered() == old(depgraph).registered().insert(Some(pkg@)).insert(None)
                    && final(depgraph).edges() == old(depgraph).edges().insert((Some(pkg@), None))
            },
            None => res is Ok && final(depgraph).registered() == old(depgraph).registered().insert(Some(pkg@)).insert(None)
                && final(depgraph).edges() == old(depgraph).edges().insert((Some(pkg@), None)),
        },
    decreases 0nat,
{
    let d = match &deps {
        Some(d) => d,
        None => {
            depgraph.register_dependency(&Some(pkg), &None);
            return Ok(());
        },
    };
    if d.len() == 0 {
        depgraph.register_dependency(&Some(pkg), &None);
        return Ok(());
    }
    let names = wanted_names(config, db, d);
    let ghost ns = wanted(db@, strings_view(d@));
    let ghost g0 = *depgraph;
    let ghost old_reg = g0.registered();
    let mut k: usize = 0;
    while k < names.len()
        invariant
            strings_view(names@) == ns,
            deps is Some,
            ns == wanted(db@, strings_view(deps->Some_0@)),
            reached_checkable(files, pkg@, ns),
            k <= names.len(),
            first_failure(files, pkg@, ns.take(k as int)) is None,
            depgraph.wf(),
            old_reg == g0.registered(),
            old_reg.subset_of(depgraph.registered()),
            g0.edges().subset_of(depgraph.edges()),
            forall|j: int| 0 <= j < k ==> lookup_outcome(files, #[trigger] ns[j]) is Ok,
            forall|j: int| 0 <= j < k ==> depgraph.registered().contains(Some(#[trigger] looked_up(files, ns[j]))),
            forall|v: Option<ControlView>| #[trigger] depgraph.registered().contains(v) ==> old_reg.contains(v) || v == Some(pkg@)
                || exists|j: int| 0 <= j < k && v == Some(#[trigger] looked_up(files, ns[j])),
            forall|e: (Option<ControlView>, Option<ControlView>)| #[trigger] depgraph.edges().contains(e) ==> g0.edges().contains(e)
                || exists|j: int| 0 <= j < k && e == (Some(pkg@), Some(#[trigger] looked_up(files, ns[j])))
                    && !old_reg.contains(Some(looked_up(files, ns[j]))),
            forall|j: int| 0 <= j < k && !old_reg.contains(Some(#[trigger] looked_up(files, ns[j])))
                && looked_up(files, ns[j]) != pkg@ ==> depgraph.edges().contains((Some(pkg@), Some(looked_up(files, ns[j])))),
        decreases names.len() - k,
    {
        let name = names[k].as_str();
        assert(ns[k as int] == names@[k as int]@);
        assert(ns.take(k + 1).drop_last() =~= ns.take(k as int));
        assert(ns.take(k + 1).last() == ns[k as int]);
        let deb = match cache_lookup(config, files, name) {
            Err(e) => {
                proof {
                    assert(lookup_outcome(files, ns[k as int]) is Err);
                    assert(first_failure(files, pkg@, ns.take(k + 1)) == Some(lookup_outcome(files, ns[k as int])->Err_0));
                    lemma_failure_prefix(files, pkg@, ns, k + 1);
                    assert(first_failure(files, pkg@, ns) == Some(lookup_outcome(files, ns[k as int])->Err_0));
                }
                return Err(e);
            },
            Ok(None) => {
                proof {
                    reveal_strlit("No package was found ...");
                    assert(lookup_outcome(files, ns[k as int]) == Err::<ControlView, ResolveFailure>(ResolveFailure::NotFound(ns[k as int])));
                    assert(first_failure(files, pkg@, ns.take(k + 1)) == Some(ResolveFailure::NotFound(ns[k as int])));
                    lemma_failure_prefix(files, pkg@, ns, k + 1);
                }
                return Err(OpmError::Install(InstallError::Error("No package was found ...".to_owned())));
            },
            Ok(Some(deb)) => deb,
        };
        proof {
            assert(lookup_outcome(files, ns[k as int]) is Ok);
            assert(version_checkable(pkg@, lookup_outcome(files, ns[k as int])->Ok_0));
        }
        proof {
            lemma_scan_without_relations(files.entries@, ns[k as int]);
        }
        let ghost v = deb.control@;
        assert(lookup_outcome(files, ns[k as int]) == Ok::<ControlView, ResolveFailure>(v));
        assert(looked_up(files, ns[k as int]) == v);
        assert(deb.control.depends is None);
        if !force {
            match (&deb.control.breaks, &deb.control.conflicts) {
                (Some(b), Some(c)) => {
                    match check_if_breaks(config, db, b) {
                        Err(e) => return Err(OpmError::Install(e)),
                        Ok(()) => {},
                    }
                    match check_if_breaks(config, db, c) {
                        Err(e) => return Err(OpmError::Install(e)),
                        Ok(()) => {},
                    }
                },
                (Some(b), None) => match check_if_breaks(config, db, b) {
                    Err(e) => return Err(OpmError::Install(e)),
                    Ok(()) => {},
                },
                (None, Some(c)) => match check_if_breaks(config, db, c) {
                    Err(e) => return Err(OpmError::Install(e)),
                    Ok(()) => {},
                },
                (None, None) => {},
            }
        }
        match get_version(deb.control.version.as_str()) {
            Some(version) => {
                if !check_version(version, pkg.version.as_str()) {
                    let msg = unsatisfied_message(&deb.control, &pkg);
                    proof {
                        assert(version_failure(pkg@, v) == Some(unsatisfied_msg(v, pkg@)));
                        assert(first_failure(files, pkg@, ns.take(k + 1)) == Some(ResolveFailure::Unsatisfied(unsatisfied_msg(v, pkg@))));
                        lemma_failure_prefix(files, pkg@, ns, k + 1);
                    }
                    return Err(OpmError::Install(InstallError::Error(msg)));
                }
            },
            None => {},
        }
        let ghost gk = *depgraph;
        let dn = Some(deb.control.duplicate());
        if !depgraph.is_registered(&dn) {
            depgraph.register_dependency(&Some(pkg.duplicate()), &dn);
            if deb.control.depends.is_some() {
                let sub = deb.control.duplicate();
                let sub_deps = match &deb.control.depends {
                    Some(x) => Some(crate::package::copy_strings(x)),
                    None => None,
                };
                match get_dependencies(config, db, files, sub, sub_deps, depgraph, force) {
                    Err(e) => return Err(e),
                    Ok(()) => {},
                }
            }
            assert forall|j: int| 0 <= j < k + 1 && !old_reg.contains(Some(#[trigger] looked_up(files, ns[j])))
                && looked_up(files, ns[j]) != pkg@ implies depgraph.edges().contains((Some(pkg@), Some(looked_up(files, ns[j])))) by {
                if j < k {
                    assert(gk.edges().contains((Some(pkg@), Some(looked_up(files, ns[j])))));
                }
            }
        } else {
            assert forall|j: int| 0 <= j < k + 1 && !old_reg.contains(Some(#[trigger] looked_up(files, ns[j])))
                && looked_up(files, ns[j]) != pkg@ implies depgraph.edges().contains((Some(pkg@), Some(looked_up(files, ns[j])))) by {
                if j == k {
                    assert(depgraph.registered().contains(Some(v)));
                    let i = choose|i: int| 0 <= i < k && Some(v) == Some(#[trigger] looked_up(files, ns[i]));
                    assert(depgraph.edges().contains((Some(pkg@), Some(looked_up(files, ns[i])))));
                }
            }
        }
        assert forall|v2: Option<ControlView>| #[trigger] depgraph.registered().contains(v2) implies old_reg.contains(v2) || v2 == Some(pkg@)
            || exists|j: int| 0 <= j < k + 1 && v2 == Some(#[trigger] looked_up(files, ns[j])) by {
            if v2 != Some(v) && v2 != Some(pkg@) {
                assert(gk.registered().contains(v2));
                if !old_reg.contains(v2) {
                    let j = choose|j: int| 0 <= j < k && v2 == Some(#[trigger] looked_up(files, ns[j]));
                    assert(0 <= j < k + 1 && v2 == Some(looked_up(files, ns[j])));
                }
            } else if v2 == Some(v) {
                assert(v2 == Some(looked_up(files, ns[k as int])));
            }
        }
        assert forall|e: (Option<ControlView>, Option<ControlView>)| #[trigger] depgraph.edges().contains(e) implies g0.edges().contains(e)
            || exists|j: int| 0 <= j < k + 1 && e == (Some(pkg@), Some(#[trigger] looked_up(files, ns[j])))
                && !old_reg.contains(Some(looked_up(files, ns[j]))) by {
            if gk.edges().contains(e) {
                if !g0.edges().contains(e) {
                    let j = choose|j: int| 0 <= j < k && e == (Some(pkg@), Some(#[trigger] looked_up(files, ns[j])))
                        && !old_reg.contains(Some(looked_up(files, ns[j])));
                    assert(0 <= j < k + 1 && e == (Some(pkg@), Some(looked_up(files, ns[j]))));
                }
            } else {
                assert(e == (Some(pkg@), Some(v)));
                assert(!gk.registered().contains(Some(v)));
                assert(!old_reg.contains(Some(v)));
                assert(e == (Some(pkg@), Some(looked_up(files, ns[k as int]))));
            }
        }
        k = k + 1;
    }
    assert(ns.take(names.len() as int) =~= ns);
    Ok(())
}

} // verus!
