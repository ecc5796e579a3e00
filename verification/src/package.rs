//! Debian control files: the paragraphs of `Packages` indexes and of the dpkg
//! status database, parsed into their fields.

use vstd::prelude::*;

use crate::config::Config;
use crate::errors::ConfigError;
use crate::text::{
    find_in, find_seq, lemma_find_seq, line_ranges, lines, pieces_of, push_str, ranges_within,
    same_chars, same_text, split_ranges, split_seq, string_of, to_chars, trim, trim_range,
    strings_view,
};

verus! {

/// Kind of the package.
#[derive(Debug, Clone, Copy, PartialEq, Eq, Structural)]
pub enum PkgKind {
    Binary,
    Source,
}

/// The priority of a package.
#[derive(Debug, Clone, Copy, PartialEq, Eq, Structural)]
pub enum PkgPriority {
    Required,
    Important,
    Standard,
    Optional,
    Extra,
}

/// The fields of a Debian control paragraph.
#[derive(Debug, Clone, PartialEq)]
pub struct ControlFile {
    pub package: String,
    pub version: String,
    pub priority: String,
    pub architecture: String,
    pub maintainer: String,
    pub description: String,
    pub depends: Option<Vec<String>>,
    pub recommends: Option<Vec<String>>,
    pub suggests: Option<Vec<String>>,
    pub enhances: Option<Vec<String>>,
    pub pre_depends: Option<Vec<String>>,
    pub breaks: Option<Vec<String>>,
    pub conflicts: Option<Vec<String>>,
    pub conffiles: Option<Vec<String>>,
    pub filename: String,
    pub size: String,
    pub md5sum: String,
    pub sha1: String,
    pub sha256: String,
    pub sha512: String,
}

/// A control paragraph as character sequences.
pub struct ControlView {
    pub package: Seq<char>,
    pub version: Seq<char>,
    pub priority: Seq<char>,
    pub architecture: Seq<char>,
    pub maintainer: Seq<char>,
    pub description: Seq<char>,
    pub depends: Option<Seq<Seq<char>>>,
    pub recommends: Option<Seq<Seq<char>>>,
    pub suggests: Option<Seq<Seq<char>>>,
    pub enhances: Option<Seq<Seq<char>>>,
    pub pre_depends: Option<Seq<Seq<char>>>,
    pub breaks: Option<Seq<Seq<char>>>,
    pub conflicts: Option<Seq<Seq<char>>>,
    pub conffiles: Option<Seq<Seq<char>>>,
    pub filename: Seq<char>,
    pub size: Seq<char>,
    pub md5sum: Seq<char>,
    pub sha1: Seq<char>,
    pub sha256: Seq<char>,
    pub sha512: Seq<char>,
}

/// The character sequences of an optional list of strings.
pub open spec fn opt_strings_view(o: Option<Vec<String>>) -> Option<Seq<Seq<char>>> {
    match o {
        Some(v) => Some(strings_view(v@)),
        None => None,
    }
}

impl View for ControlFile {
    type V = ControlView;

    open spec fn view(&self) -> ControlView {
        ControlView {
            package: self.package@,
            version: self.version@,
            priority: self.priority@,
            architecture: self.architecture@,
            maintainer: self.maintainer@,
            description: self.description@,
            depends: opt_strings_view(self.depends),
            recommends: opt_strings_view(self.recommends),
            suggests: opt_strings_view(self.suggests),
            enhances: opt_strings_view(self.enhances),
            pre_depends: opt_strings_view(self.pre_depends),
            breaks: opt_strings_view(self.breaks),
            conflicts: opt_strings_view(self.conflicts),
            conffiles: opt_strings_view(self.conffiles),
            filename: self.filename@,
            size: self.size@,
            md5sum: self.md5sum@,
            sha1: self.sha1@,
            sha256: self.sha256@,
            sha512: self.sha512@,
        }
    }
}

/// A field line of a control paragraph, trimmed: the key before the first
/// colon and the value after it, or the whole line and no value where there
/// is no colon.
pub open spec fn line_entry(line: Seq<char>) -> (Seq<char>, Option<Seq<char>>) {
    let t = trim(line);
    match find_seq(t, seq![':']) {
        Some(i) => (t.subrange(0, i), Some(t.subrange(i + 1, t.len() as int))),
        None => (t, None),
    }
}

/// The field lines of a paragraph, in order.
pub open spec fn field_entries(contents: Seq<char>) -> Seq<(Seq<char>, Option<Seq<char>>)> {
    lines(contents).map_values(|l: Seq<char>| line_entry(l))
}

/// The value that the last line with key `key` gives, as a map filled line
/// by line holds it: `None` where no line has the key.
pub open spec fn lookup(es: Seq<(Seq<char>, Option<Seq<char>>)>, key: Seq<char>) -> Option<
    Option<Seq<char>>,
>
    decreases es.len(),
{
    if es.len() == 0 {
        None
    } else if es.last().0 == key {
        Some(es.last().1)
    } else {
        lookup(es.drop_last(), key)
    }
}

/// A later line with a key replaces what earlier lines gave it, and leaves
/// every other key as it was.
pub proof fn lemma_lookup_last_line_wins(
    es: Seq<(Seq<char>, Option<Seq<char>>)>,
    e: (Seq<char>, Option<Seq<char>>),
    key: Seq<char>,
)
    ensures
        lookup(es.push(e), e.0) == Some(e.1),
        key != e.0 ==> lookup(es.push(e), key) == lookup(es, key),
{
    assert(es.push(e).drop_last() =~= es);
}

/// The message for a field that a paragraph lacks.
pub open spec fn missing_msg(field: Seq<char>) -> Seq<char> {
    "Invalid debain's control file! Missing \""@ + field + "\" field"@
}

/// The message for a field line that has no colon.
pub open spec fn unknown_msg(field: Seq<char>) -> Seq<char> {
    "Unknown error trying to get \""@ + field + "\" field"@
}

/// A field's trimmed value, or the message of why there is none.
pub open spec fn spec_field(contents: Seq<char>, field: Seq<char>) -> Result<Seq<char>, Seq<char>> {
    match lookup(field_entries(contents), field) {
        None => Err(missing_msg(field)),
        Some(None) => Err(unknown_msg(field)),
        Some(Some(v)) => Ok(trim(v)),
    }
}

/// A field's trimmed value, or the empty text where there is none.
pub open spec fn field_or_empty(contents: Seq<char>, field: Seq<char>) -> Seq<char> {
    match spec_field(contents, field) {
        Ok(v) => v,
        Err(_) => seq![],
    }
}

/// The message of the first mandatory field (Package, Version,
/// Architecture, Maintainer, Description) that a paragraph lacks.
pub open spec fn first_missing(c: Seq<char>) -> Option<Seq<char>> {
    if spec_field(c, "Package"@) is Err {
        Some(spec_field(c, "Package"@)->Err_0)
    } else if spec_field(c, "Version"@) is Err {
        Some(spec_field(c, "Version"@)->Err_0)
    } else if spec_field(c, "Architecture"@) is Err {
        Some(spec_field(c, "Architecture"@)->Err_0)
    } else if spec_field(c, "Maintainer"@) is Err {
        Some(spec_field(c, "Maintainer"@)->Err_0)
    } else if spec_field(c, "Description"@) is Err {
        Some(spec_field(c, "Description"@)->Err_0)
    } else {
        None
    }
}

/// A comma-separated list, each item trimmed; `None` for the empty text.
pub open spec fn spec_split_optional(val: Seq<char>) -> Option<Seq<Seq<char>>> {
    if val.len() == 0 {
        None
    } else {
        Some(split_seq(val, seq![',']).map_values(|d: Seq<char>| trim(d)))
    }
}

/// A relationship field of a paragraph as a list.
pub open spec fn relation(c: Seq<char>, field: Seq<char>) -> Option<Seq<Seq<char>>> {
    spec_split_optional(field_or_empty(c, field))
}

#[verifier::opaque]
/// The paragraph `c` parsed; with `relations` the relationship fields
/// (Depends, Recommends, Suggests, Enhances, Pre-Depends, Breaks, Conflicts)
/// are read as lists too, without it they are left out.
pub open spec fn spec_control(c: Seq<char>, relations: bool) -> Result<ControlView, Seq<char>> {
    match first_missing(c) {
        Some(m) => Err(m),
        None => Ok(
            ControlView {
                package: field_or_empty(c, "Package"@),
                version: field_or_empty(c, "Version"@),
                priority: field_or_empty(c, "Priority"@),
                architecture: field_or_empty(c, "Architecture"@),
                maintainer: field_or_empty(c, "Maintainer"@),
                description: field_or_empty(c, "Description"@),
                depends: if relations { relation(c, "Depends"@) } else { None },
                recommends: if relations { relation(c, "Recommends"@) } else { None },
                suggests: if relations { relation(c, "Suggests"@) } else { None },
                enhances: if relations { relation(c, "Enhances"@) } else { None },
                pre_depends: if relations { relation(c, "Pre-Depends"@) } else { None },
                breaks: if relations { relation(c, "Breaks"@) } else { None },
                conflicts: if relations { relation(c, "Conflicts"@) } else { None },
                conffiles: None,
                filename: field_or_empty(c, "Filename"@),
                size: field_or_empty(c, "Size"@),
                md5sum: field_or_empty(c, "MD5sum"@),
                sha1: field_or_empty(c, "SHA1"@),
                sha256: field_or_empty(c, "SHA256"@),
                sha512: field_or_empty(c, "SHA512"@),
            },
        ),
    }
}


/// A paragraph parsed without its relationship fields has none.
pub proof fn lemma_control_without_relations(c: Seq<char>)
    ensures
        spec_control(c, false) matches Ok(v) ==> v.depends is None && v.breaks is None
            && v.conflicts is None,
{
    reveal(spec_control);
}

/// The items of a comma-separated list, each trimmed.
pub open spec fn listed_items(val: Seq<char>) -> Seq<Seq<char>> {
    split_seq(val, seq![',']).map_values(|d: Seq<char>| trim(d))
}

/// Parsed with its relationship fields, each relationship list of a
/// paragraph comes from the field line of the same name: it is absent where
/// the paragraph has no such line, and where the last such line has a
/// non-empty value, it is that value split at commas, each item trimmed.
pub proof fn lemma_relations_follow_field_lines(c: Seq<char>)
    ensures
        spec_control(c, true) matches Ok(v) ==> (lookup(field_entries(c), "Depends"@) is None ==> v.depends is None),
        forall|val: Seq<char>|
            spec_control(c, true) is Ok && lookup(field_entries(c), "Depends"@) == Some(Some(val)) && #[trigger] trim(val).len() > 0
                ==> spec_control(c, true)->Ok_0.depends == Some(listed_items(trim(val))),
        spec_control(c, true) matches Ok(v) ==> (lookup(field_entries(c), "Recommends"@) is None ==> v.recommends is None),
        forall|val: Seq<char>|
            spec_control(c, true) is Ok && lookup(field_entries(c), "Recommends"@) == Some(Some(val)) && #[trigger] trim(val).len() > 0
                ==> spec_control(c, true)->Ok_0.recommends == Some(listed_items(trim(val))),
        spec_control(c, true) matches Ok(v) ==> (lookup(field_entries(c), "Suggests"@) is None ==> v.suggests is None),
        forall|val: Seq<char>|
            spec_control(c, true) is Ok && lookup(field_entries(c), "Suggests"@) == Some(Some(val)) && #[trigger] trim(val).len() > 0
                ==> spec_control(c, true)->Ok_0.suggests == Some(listed_items(trim(val))),
        spec_control(c, true) matches Ok(v) ==> (lookup(field_entries(c), "Enhances"@) is None ==> v.enhances is None),
        forall|val: Seq<char>|
            spec_control(c, true) is Ok && lookup(field_entries(c), "Enhances"@) == Some(Some(val)) && #[trigger] trim(val).len() > 0
                ==> spec_control(c, true)->Ok_0.enhances == Some(listed_items(trim(val))),
        spec_control(c, true) matches Ok(v) ==> (lookup(field_entries(c), "Pre-Depends"@) is None ==> v.pre_depends is None),
        forall|val: Seq<char>|
            spec_control(c, true) is Ok && lookup(field_entries(c), "Pre-Depends"@) == Some(Some(val)) && #[trigger] trim(val).len() > 0
                ==> spec_control(c, true)->Ok_0.pre_depends == Some(listed_items(trim(val))),
        spec_control(c, true) matches Ok(v) ==> (lookup(field_entries(c), "Breaks"@) is None ==> v.breaks is None),
        forall|val: Seq<char>|
            spec_control(c, true) is Ok && lookup(field_entries(c), "Breaks"@) == Some(Some(val)) && #[trigger] trim(val).len() > 0
                ==> spec_control(c, true)->Ok_0.breaks == Some(listed_items(trim(val))),
        spec_control(c, true) matches Ok(v) ==> (lookup(field_entries(c), "Conflicts"@) is None ==> v.conflicts is None),
        forall|val: Seq<char>|
            spec_control(c, true) is Ok && lookup(field_entries(c), "Conflicts"@) == Some(Some(val)) && #[trigger] trim(val).len() > 0
                ==> spec_control(c, true)->Ok_0.conflicts == Some(listed_items(trim(val))),
{
    reveal(spec_control);
}

/// A paragraph without its relationship lists.
pub open spec fn without_relations(v: ControlView) -> ControlView {
    ControlView {
        depends: None,
        recommends: None,
        suggests: None,
        enhances: None,
        pre_depends: None,
        breaks: None,
        conflicts: None,
        ..v
    }
}

/// Parsing a paragraph with and without its relationship fields accepts the
/// same paragraphs, refuses the others with the same message, and agrees
/// on every field but the relationship lists, which the parse without them
/// leaves out.
pub proof fn lemma_control_relations_agree(c: Seq<char>)
    ensures
        spec_control(c, false) is Ok <==> spec_control(c, true) is Ok,
        spec_control(c, false) is Err ==> spec_control(c, false) == spec_control(c, true),
        spec_control(c, true) matches Ok(v) ==> spec_control(c, false) == Ok::<ControlView, Seq<char>>(
            without_relations(v),
        ),
{
    reveal(spec_control);
}

/// The field lines of a paragraph, as index ranges into its characters.
pub struct FieldMap {
    text: Vec<char>,
    keys: Vec<(usize, usize)>,
    values: Vec<Option<(usize, usize)>>,
}

/// The text that an optional range selects.
pub open spec fn opt_range(t: Seq<char>, r: Option<(usize, usize)>) -> Option<Seq<char>> {
    match r {
        Some(r) => Some(t.subrange(r.0 as int, r.1 as int)),
        None => None,
    }
}

impl FieldMap {
    /// The ranges lie inside the text.
    pub closed spec fn wf(&self) -> bool {
        &&& self.keys.len() == self.values.len()
        &&& forall|k: int|
            0 <= k < self.keys.len() ==> #[trigger] self.keys@[k].0 <= self.keys@[k].1
                <= self.text.len()
        &&& forall|k: int|
            0 <= k < self.values.len() ==> (#[trigger] self.values@[k] matches Some(r) ==> r.0
                <= r.1 <= self.text.len())
    }

    /// The field lines.
    pub closed spec fn entries(&self) -> Seq<(Seq<char>, Option<Seq<char>>)> {
        Seq::new(
            self.keys.len() as nat,
            |k: int|
                (
                    self.text@.subrange(self.keys@[k].0 as int, self.keys@[k].1 as int),
                    opt_range(self.text@, self.values@[k]),
                ),
        )
    }

    /// Splits a paragraph into its field lines.
    pub fn parse(contents: &str) -> (m: Self)
        ensures
            m.wf(),
            m.entries() == field_entries(contents@),
    {
        let text = to_chars(contents);
        let n = text.len();
        assert(text@.subrange(0, n as int) =~= text@);
        let lrs = line_ranges(&text, 0, n);
        let ghost ls = lines(contents@);
        let mut colon: Vec<char> = Vec::new();
        colon.push(':');
        assert(colon@ =~= seq![':']);
        let mut keys: Vec<(usize, usize)> = Vec::new();
        let mut values: Vec<Option<(usize, usize)>> = Vec::new();
        let mut k: usize = 0;
        while k < lrs.len()
            invariant
                text@ == contents@,
                n == text.len(),
                colon@ == seq![':'],
                ranges_within(lrs@, 0, n as int),
                pieces_of(text@, lrs@) == ls,
                k <= lrs.len(),
                keys.len() == k,
                values.len() == k,
                forall|j: int| 0 <= j < k ==> #[trigger] keys@[j].0 <= keys@[j].1 <= n,
                forall|j: int|
                    0 <= j < k ==> (#[trigger] values@[j] matches Some(r) ==> r.0 <= r.1 <= n),
                forall|j: int|
                    0 <= j < k ==> (text@.subrange(#[trigger] keys@[j].0 as int, keys@[j].1 as int),
                    opt_range(text@, values@[j])) == line_entry(ls[j]),
            decreases lrs.len() - k,
        {
            let r = lrs[k];
            assert(ranges_within(lrs@, 0, n as int));
            assert(0 <= lrs@[k as int].0);
            assert(lrs@[k as int].0 <= lrs@[k as int].1);
            assert(lrs@[k as int].1 <= n);
            assert(pieces_of(text@, lrs@)[k as int] == text@.subrange(r.0 as int, r.1 as int));
            let (a, b) = trim_range(&text, r.0, r.1);
            let ghost t = text@.subrange(a as int, b as int);
            match find_in(&text, a, b, &colon) {
                Some(i) => {
                    proof {
                        lemma_find_seq(t, seq![':']);
                        assert(t.subrange(0, i as int) =~= text@.subrange(a as int, a + i));
                        assert(t.subrange(i + 1, t.len() as int) =~= text@.subrange(
                            a + i + 1,
                            b as int,
                        ));
                    }
                    keys.push((a, a + i));
                    values.push(Some((a + i + 1, b)));
                },
                None => {
                    keys.push((a, b));
                    values.push(None);
                },
            }
            k = k + 1;
        }
        let m = FieldMap { text, keys, values };
        assert(m.entries() =~= field_entries(contents@));
        m
    }

    /// The value range of the last line whose key is `key`.
    fn get(&self, key: &str) -> (r: Option<Option<(usize, usize)>>)
        requires
            self.wf(),
        ensures
            match r {
                None => lookup(self.entries(), key@) is None,
                Some(v) => lookup(self.entries(), key@) == Some(opt_range(self.text@, v)) && (v matches Some(x) ==> x.0 <= x.1 <= self.text.len()),
            },
    {
        let kc = to_chars(key);
        let ghost es = self.entries();
        let mut i = self.keys.len();
        assert(es.take(i as int) =~= es);
        while i > 0
            invariant
                self.wf(),
                kc@ == key@,
                es == self.entries(),
                i <= self.keys.len(),
                lookup(es, key@) == lookup(es.take(i as int), key@),
            decreases i,
        {
            let r = self.keys[i - 1];
            assert(r.0 <= r.1 <= self.text.len());
            if same_chars(&self.text, r.0, r.1, &kc) {
                assert(es.take(i as int).last() == es[i - 1]);
                let v = self.values[i - 1];
                assert(v matches Some(x) ==> x.0 <= x.1 <= self.text.len());
                return Some(v);
            }
            assert(es.take(i as int).drop_last() =~= es.take(i - 1));
            i = i - 1;
        }
        None
    }
}

/// Executable `spec_split_optional`, applied where the text is present.
fn split_list(val: &str) -> (r: Option<Vec<String>>)
    ensures
        opt_strings_view(r) == spec_split_optional(val@),
{
    let t = to_chars(val);
    if t.len() == 0 {
        return None;
    }
    let mut comma: Vec<char> = Vec::new();
    comma.push(',');
    assert(comma@ =~= seq![',']);
    assert(t@.subrange(0, t.len() as int) =~= t@);
    let rs = split_ranges(&t, 0, t.len(), &comma);
    let ghost ps = split_seq(val@, seq![',']);
    let mut out: Vec<String> = Vec::new();
    let mut k: usize = 0;
    while k < rs.len()
        invariant
            t@ == val@,
            ranges_within(rs@, 0, t.len() as int),
            pieces_of(t@, rs@) == ps,
            k <= rs.len(),
            out.len() == k,
            forall|j: int| 0 <= j < k ==> (#[trigger] out@[j])@ == trim(ps[j]),
        decreases rs.len() - k,
    {
        let r = rs[k];
        assert(rs@[k as int].0 <= rs@[k as int].1);
        assert(rs@[k as int].1 <= t.len());
        assert(pieces_of(t@, rs@)[k as int] == t@.subrange(r.0 as int, r.1 as int));
        let (a, b) = trim_range(&t, r.0, r.1);
        out.push(string_of(&t, a, b));
        k = k + 1;
    }
    assert(strings_view(out@) =~= ps.map_values(|d: Seq<char>| trim(d)));
    Some(out)
}

/// A copy of a list of strings.
pub fn copy_strings(v: &Vec<String>) -> (r: Vec<String>)
    ensures
        strings_view(r@) == strings_view(v@),
{
    let mut r: Vec<String> = Vec::new();
    let mut i: usize = 0;
    while i < v.len()
        invariant
            i <= v.len(),
            r.len() == i,
            forall|j: int| 0 <= j < i ==> (#[trigger] r@[j])@ == v@[j]@,
        decreases v.len() - i,
    {
        r.push(v[i].clone());
        i = i + 1;
    }
    assert(strings_view(r@) =~= strings_view(v@));
    r
}

/// A copy of an optional list of strings.
pub fn copy_opt_strings(o: &Option<Vec<String>>) -> (r: Option<Vec<String>>)
    ensures
        opt_strings_view(r) == opt_strings_view(*o),
{
    match o {
        Some(v) => Some(copy_strings(v)),
        None => None,
    }
}


/// Two lists of strings hold the same texts.
pub fn same_strings(a: &Vec<String>, b: &Vec<String>) -> (r: bool)
    ensures
        r == (strings_view(a@) == strings_view(b@)),
{
    if a.len() != b.len() {
        assert(strings_view(a@).len() != strings_view(b@).len());
        return false;
    }
    let mut i: usize = 0;
    while i < a.len()
        invariant
            a.len() == b.len(),
            i <= a.len(),
            forall|j: int| 0 <= j < i ==> (#[trigger] a@[j])@ == b@[j]@,
        decreases a.len() - i,
    {
        if !same_text(a[i].as_str(), b[i].as_str()) {
            assert(strings_view(a@)[i as int] != strings_view(b@)[i as int]);
            return false;
        }
        i = i + 1;
    }
    assert(strings_view(a@) =~= strings_view(b@));
    true
}

/// Two optional lists of strings hold the same texts.
pub fn same_opt_strings(a: &Option<Vec<String>>, b: &Option<Vec<String>>) -> (r: bool)
    ensures
        r == (opt_strings_view(*a) == opt_strings_view(*b)),
{
    match (a, b) {
        (Some(x), Some(y)) => same_strings(x, y),
        (None, None) => true,
        _ => false,
    }
}

/// Two paragraphs have the same fields.
pub fn same_control(a: &ControlFile, b: &ControlFile) -> (r: bool)
    ensures
        r == (a@ == b@),
{
    same_text(a.package.as_str(), b.package.as_str())
        && same_text(a.version.as_str(), b.version.as_str())
        && same_text(a.priority.as_str(), b.priority.as_str())
        && same_text(a.architecture.as_str(), b.architecture.as_str())
        && same_text(a.maintainer.as_str(), b.maintainer.as_str())
        && same_text(a.description.as_str(), b.description.as_str())
        && same_opt_strings(&a.depends, &b.depends)
        && same_opt_strings(&a.recommends, &b.recommends)
        && same_opt_strings(&a.suggests, &b.suggests)
        && same_opt_strings(&a.enhances, &b.enhances)
        && same_opt_strings(&a.pre_depends, &b.pre_depends)
        && same_opt_strings(&a.breaks, &b.breaks)
        && same_opt_strings(&a.conflicts, &b.conflicts)
        && same_opt_strings(&a.conffiles, &b.conffiles)
        && same_text(a.filename.as_str(), b.filename.as_str())
        && same_text(a.size.as_str(), b.size.as_str())
        && same_text(a.md5sum.as_str(), b.md5sum.as_str())
        && same_text(a.sha1.as_str(), b.sha1.as_str())
        && same_text(a.sha256.as_str(), b.sha256.as_str())
        && same_text(a.sha512.as_str(), b.sha512.as_str())
}

impl PkgPriority {
    /// The priority that a `Priority` field names; `optional` for any other
    /// text.
    pub fn get_priority(p: &str) -> (r: Self)
        ensures
            r == (if p@ == "required"@ {
                PkgPriority::Required
            } else if p@ == "important"@ {
                PkgPriority::Important
            } else if p@ == "standard"@ {
                PkgPriority::Standard
            } else if p@ == "optional"@ {
                PkgPriority::Optional
            } else if p@ == "extra"@ {
                PkgPriority::Extra
            } else {
                PkgPriority::Optional
            }),
    {
        if same_text(p, "required") {
            PkgPriority::Required
        } else if same_text(p, "important") {
            PkgPriority::Important
        } else if same_text(p, "standard") {
            PkgPriority::Standard
        } else if same_text(p, "optional") {
            PkgPriority::Optional
        } else if same_text(p, "extra") {
            PkgPriority::Extra
        } else {
            PkgPriority::Optional
        }
    }
}

impl ControlFile {
    /// Parses a control paragraph with its mandatory and checksum fields; the
    /// relationship fields are left out.
    pub fn new(config: &Config, contents: &str) -> (res: Result<Self, ConfigError>)
        ensures
            match spec_control(contents@, false) {
                Ok(v) => res matches Ok(c) && c@ == v,
                Err(m) => res matches Err(ConfigError::UnexError { msg, err }) && msg@ == m
                    && err is None,
            },
    {
        Self::parse(contents, false)
    }

    /// Parses a control paragraph, the relationship fields included.
    pub fn from(config: &Config, contents: &str) -> (res: Result<Self, ConfigError>)
        ensures
            match spec_control(contents@, true) {
                Ok(v) => res matches Ok(c) && c@ == v,
                Err(m) => res matches Err(ConfigError::UnexError { msg, err }) && msg@ == m
                    && err is None,
            },
    {
        Self::parse(contents, true)
    }

    fn parse(contents: &str, relations: bool) -> (res: Result<Self, ConfigError>)
        ensures
            match spec_control(contents@, relations) {
                Ok(v) => res matches Ok(c) && c@ == v,
                Err(m) => res matches Err(ConfigError::UnexError { msg, err }) && msg@ == m
                    && err is None,
            },
    {
        reveal(spec_control);
        let map = FieldMap::parse(contents);
        let package = match Self::try_get(&map, "Package") {
            Ok(v) => v,
            Err(e) => return Err(e),
        };
        let version = match Self::try_get(&map, "Version") {
            Ok(v) => v,
            Err(e) => return Err(e),
        };
        let architecture = match Self::try_get(&map, "Architecture") {
            Ok(v) => v,
            Err(e) => return Err(e),
        };
        let maintainer = match Self::try_get(&map, "Maintainer") {
            Ok(v) => v,
            Err(e) => return Err(e),
        };
        let description = match Self::try_get(&map, "Description") {
            Ok(v) => v,
            Err(e) => return Err(e),
        };
        let priority = Self::get_or_empty(&map, "Priority");
        let (depends, rec_list, suggests, enhances, pre_depends, breaks, conflicts) = if relations {
            (
                Self::split_optional(Some(Self::get_or_empty(&map, "Depends").as_str())),
                Self::split_optional(Some(Self::get_or_empty(&map, "Recommends").as_str())),
                Self::split_optional(Some(Self::get_or_empty(&map, "Suggests").as_str())),
                Self::split_optional(Some(Self::get_or_empty(&map, "Enhances").as_str())),
                Self::split_optional(Some(Self::get_or_empty(&map, "Pre-Depends").as_str())),
                Self::split_optional(Some(Self::get_or_empty(&map, "Breaks").as_str())),
                Self::split_optional(Some(Self::get_or_empty(&map, "Conflicts").as_str())),
            )
        } else {
            (None, None, None, None, None, None, None)
        };
        let c = Self {
            package,
            version,
            architecture,
            maintainer,
            description,
            priority,
            depends,
            recommends: rec_list,
            suggests,
            enhances,
            pre_depends,
            breaks,
            conflicts,
            conffiles: None,
            filename: Self::get_or_empty(&map, "Filename"),
            size: Self::get_or_empty(&map, "Size"),
            md5sum: Self::get_or_empty(&map, "MD5sum"),
            sha1: Self::get_or_empty(&map, "SHA1"),
            sha256: Self::get_or_empty(&map, "SHA256"),
            sha512: Self::get_or_empty(&map, "SHA512"),
        };
        Ok(c)
    }

    /// A field's trimmed value, or the error for a missing field or a field
    /// line without a colon.
    fn try_get(map: &FieldMap, field: &str) -> (res: Result<String, ConfigError>)
        requires
            map.wf(),
        ensures
            match lookup(map.entries(), field@) {
                None => res matches Err(ConfigError::UnexError { msg, err }) && msg@ == missing_msg(field@) && err is None,
                Some(None) => res matches Err(ConfigError::UnexError { msg, err }) && msg@ == unknown_msg(field@) && err is None,
                Some(Some(v)) => res matches Ok(s) && s@ == trim(v),
            },
    {
        match map.get(field) {
            None => {
                let mut msg = "Invalid debain's control file! Missing \"".to_owned();
                push_str(&mut msg, field);
                push_str(&mut msg, "\" field");
                Err(ConfigError::UnexError { msg, err: None })
            },
            Some(None) => {
                let mut msg = "Unknown error trying to get \"".to_owned();
                push_str(&mut msg, field);
                push_str(&mut msg, "\" field");
                Err(ConfigError::UnexError { msg, err: None })
            },
            Some(Some((a, b))) => {
                let (x, y) = trim_range(&map.text, a, b);
                Ok(string_of(&map.text, x, y))
            },
        }
    }

    /// A field's trimmed value, or the empty string.
    fn get_or_empty(map: &FieldMap, field: &str) -> (r: String)
        requires
            map.wf(),
        ensures
            r@ == (match lookup(map.entries(), field@) {
                Some(Some(v)) => trim(v),
                _ => seq![],
            }),
    {
        match Self::try_get(map, field) {
            Ok(v) => v,
            Err(_) => String::new(),
        }
    }

    /// A comma-separated relationship list, each item trimmed; `None` for an
    /// absent or empty text.
    fn split_optional(dependencies: Option<&str>) -> (r: Option<Vec<String>>)
        ensures
            match dependencies {
                Some(val) => opt_strings_view(r) == spec_split_optional(val@),
                None => r is None,
            },
    {
        match dependencies {
            Some(val) => split_list(val),
            None => None,
        }
    }

    /// The configuration files of a package: none are read.
    fn get_conffiles(conffiles: Option<&str>) -> (r: Option<Vec<String>>)
        ensures
            r is None,
    {
        None
    }

    /// Replaces the archive's file name.
    pub fn set_filename(&mut self, filename: &str)
        ensures
            final(self)@ == (ControlView { filename: filename@, ..old(self)@ }),
    {
        self.filename = filename.to_owned();
    }

    /// A copy of the paragraph.
    pub fn duplicate(&self) -> (r: Self)
        ensures
            r@ == self@,
    {
        ControlFile {
            package: self.package.clone(),
            version: self.version.clone(),
            priority: self.priority.clone(),
            architecture: self.architecture.clone(),
            maintainer: self.maintainer.clone(),
            description: self.description.clone(),
            depends: copy_opt_strings(&self.depends),
            recommends: copy_opt_strings(&self.recommends),
            suggests: copy_opt_strings(&self.suggests),
            enhances: copy_opt_strings(&self.enhances),
            pre_depends: copy_opt_strings(&self.pre_depends),
            breaks: copy_opt_strings(&self.breaks),
            conflicts: copy_opt_strings(&self.conflicts),
            conffiles: copy_opt_strings(&self.conffiles),
            filename: self.filename.clone(),
            size: self.size.clone(),
            md5sum: self.md5sum.clone(),
            sha1: self.sha1.clone(),
            sha256: self.sha256.clone(),
            sha512: self.sha512.clone(),
        }
    }
}

/// A Debian binary package: its control paragraph and kind.
#[derive(Debug, Clone, PartialEq)]
pub struct DebPackage {
    pub control: ControlFile,
    pub kind: PkgKind,
}

impl DebPackage {
    /// The package whose control file has the contents `contents`, with its
    /// relationship fields.
    pub fn new(config: &Config, contents: &str, kind: PkgKind) -> (res: Result<Self, ConfigError>)
        ensures
            match spec_control(contents@, true) {
                Ok(v) => res matches Ok(p) && p.control@ == v && p.kind == kind,
                Err(m) => res matches Err(ConfigError::UnexError { msg, err }) && msg@ == m
                    && err is None,
            },
    {
        match ControlFile::from(config, contents) {
            Ok(control) => Ok(DebPackage { control, kind }),
            Err(e) => Err(e),
        }
    }
}

} // verus!
