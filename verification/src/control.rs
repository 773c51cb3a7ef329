//! The metadata paragraph of a package: an RFC822-like field format with
//! case-insensitive tags and line-continuation folding.

use vstd::pervasive::unreached;
use vstd::prelude::*;
use vstd::utf8::{decode_utf8, valid_utf8};

use crate::archive::{tar_scan, tar_scan_of, TarArchive};
use crate::error::Error;

verus! {

// ---------------------------------------------------------------------------
// Case-insensitive tag comparison
// ---------------------------------------------------------------------------
/// The code point of `c` with an ASCII upper-case letter folded to lower
/// case.
pub open spec fn lower(c: char) -> u32 {
    if 'A' as u32 <= c as u32 && c as u32 <= 'Z' as u32 {
        (c as u32 + 32) as u32
    } else {
        c as u32
    }
}

/// Two character sequences are equal up to ASCII case.
pub open spec fn ci_eq(a: Seq<char>, b: Seq<char>) -> bool {
    a.len() == b.len() && forall|i: int| 0 <= i < a.len() ==> lower(a[i]) == lower(b[i])
}

/// Case-insensitive equality is symmetric.
pub proof fn lemma_ci_eq_sym(a: Seq<char>, b: Seq<char>)
    requires
        ci_eq(a, b),
    ensures
        ci_eq(b, a),
{
}

/// Case-insensitive equality is transitive.
pub proof fn lemma_ci_eq_trans(a: Seq<char>, b: Seq<char>, c: Seq<char>)
    requires
        ci_eq(a, b),
        ci_eq(b, c),
    ensures
        ci_eq(a, c),
{
}

/// Compares two strings for equality ignoring ASCII case.
pub fn str_ci_eq(a: &str, b: &str) -> (r: bool)
    ensures
        r == ci_eq(a@, b@),
{
    let na = a.unicode_len();
    let nb = b.unicode_len();
    if na != nb {
        return false;
    }
    let mut i: usize = 0;
    while i < na
        invariant
            na == a@.len(),
            nb == b@.len(),
            na == nb,
            i <= na,
            forall|j: int| 0 <= j < i ==> lower(a@[j]) == lower(b@[j]),
        decreases na - i,
    {
        let ca = a.get_char(i) as u32;
        let cb = b.get_char(i) as u32;
        let la = if 65 <= ca && ca <= 90 {
            ca + 32
        } else {
            ca
        };
        let lb = if 65 <= cb && cb <= 90 {
            cb + 32
        } else {
            cb
        };
        if la != lb {
            return false;
        }
        i += 1;
    }
    true
}

// ---------------------------------------------------------------------------
// Whitespace and trimming
// ---------------------------------------------------------------------------
/// The Unicode whitespace characters (the set `char::is_whitespace` accepts).
pub open spec fn is_ws(c: char) -> bool {
    let u = c as u32;
    u == 0x20 || (0x09 <= u && u <= 0x0d) || u == 0x85 || u == 0xa0 || u == 0x1680 || (0x2000 <= u
        && u <= 0x200a) || u == 0x2028 || u == 0x2029 || u == 0x202f || u == 0x205f || u == 0x3000
}

fn is_ws_char(c: char) -> (r: bool)
    ensures
        r == is_ws(c),
{
    let u = c as u32;
    u == 0x20 || (0x09 <= u && u <= 0x0d) || u == 0x85 || u == 0xa0 || u == 0x1680 || (0x2000 <= u
        && u <= 0x200a) || u == 0x2028 || u == 0x2029 || u == 0x202f || u == 0x205f || u == 0x3000
}

/// `s` without trailing whitespace.
pub open spec fn trim_end(s: Seq<char>) -> Seq<char>
    decreases s.len(),
{
    if s.len() > 0 && is_ws(s.last()) {
        trim_end(s.drop_last())
    } else {
        s
    }
}

/// `s` without leading whitespace.
pub open spec fn trim_start(s: Seq<char>) -> Seq<char>
    decreases s.len(),
{
    if s.len() > 0 && is_ws(s.first()) {
        trim_start(s.drop_first())
    } else {
        s
    }
}

/// `s` without leading and trailing whitespace.
pub open spec fn trim(s: Seq<char>) -> Seq<char> {
    trim_start(trim_end(s))
}

proof fn lemma_trim_end_char(s: Seq<char>, e: int)
    requires
        0 <= e <= s.len(),
        forall|j: int| e <= j < s.len() ==> is_ws(s[j]),
        e > 0 ==> !is_ws(s[e - 1]),
    ensures
        trim_end(s) == s.subrange(0, e),
    decreases s.len(),
{
    if s.len() == 0 {
        assert(s.subrange(0, 0) =~= s);
    } else if is_ws(s.last()) {
        lemma_trim_end_char(s.drop_last(), e);
        assert(s.drop_last().subrange(0, e) =~= s.subrange(0, e));
    } else {
        assert(e == s.len());
        assert(s.subrange(0, e) =~= s);
    }
}

proof fn lemma_trim_start_char(s: Seq<char>, st: int)
    requires
        0 <= st <= s.len(),
        forall|j: int| 0 <= j < st ==> is_ws(s[j]),
        st < s.len() ==> !is_ws(s[st]),
    ensures
        trim_start(s) == s.subrange(st, s.len() as int),
    decreases s.len(),
{
    if s.len() == 0 {
        assert(s.subrange(0, 0) =~= s);
    } else if is_ws(s.first()) {
        assert(st >= 1);
        lemma_trim_start_char(s.drop_first(), st - 1);
        assert(s.drop_first().subrange(st - 1, s.len() - 1) =~= s.subrange(st, s.len() as int));
    } else {
        assert(st == 0);
        assert(s.subrange(0, s.len() as int) =~= s);
    }
}

/// Index after which `line` holds only trailing whitespace; `n` must be the
/// character length of `line`.
pub(crate) fn trim_end_idx(line: &str, n: usize) -> (e: usize)
    requires
        n == line@.len(),
    ensures
        e <= line@.len(),
        trim_end(line@) == line@.subrange(0, e as int),
{
    let mut e = n;
    while e > 0 && is_ws_char(line.get_char(e - 1))
        invariant
            e <= n,
            n == line@.len(),
            forall|j: int| e <= j < n ==> is_ws(line@[j]),
        decreases e,
    {
        e -= 1;
    }
    proof {
        lemma_trim_end_char(line@, e as int);
    }
    e
}

/// The bounds of `line` with surrounding whitespace removed.
fn trim_idx(line: &str) -> (r: (usize, usize))
    ensures
        r.0 <= r.1 <= line@.len(),
        trim(line@) == line@.subrange(r.0 as int, r.1 as int),
{
    let n = line.unicode_len();
    let e = trim_end_idx(line, n);
    let mut s: usize = 0;
    while s < e && is_ws_char(line.get_char(s))
        invariant
            s <= e <= n,
            n == line@.len(),
            trim_end(line@) == line@.subrange(0, e as int),
            forall|j: int| 0 <= j < s ==> is_ws(line@[j]),
        decreases e - s,
    {
        s += 1;
    }
    proof {
        let t = line@.subrange(0, e as int);
        lemma_trim_start_char(t, s as int);
        assert(t.subrange(s as int, e as int) =~= line@.subrange(s as int, e as int));
    }
    (s, e)
}

// ---------------------------------------------------------------------------
// The line grammar
// ---------------------------------------------------------------------------
/// Position of the first occurrence of `c` in `s` (`s.len()` if there is
/// none).
pub open spec fn find_char(s: Seq<char>, c: char) -> int {
    if exists|i: int|
        0 <= i < s.len() && s[i] == c && (forall|j: int| 0 <= j < i ==> s[j] != c) {
        choose|i: int| 0 <= i < s.len() && s[i] == c && (forall|j: int| 0 <= j < i ==> s[j] != c)
    } else {
        s.len() as int
    }
}

/// If position `k` holds `c` and nothing before it does, then `k` is where
/// `find_char` points.
proof fn lemma_find_char_at(s: Seq<char>, c: char, k: int)
    requires
        0 <= k < s.len(),
        s[k] == c,
        forall|j: int| 0 <= j < k ==> s[j] != c,
    ensures
        find_char(s, c) == k,
{
    let i = choose|i: int|
        0 <= i < s.len() && s[i] == c && (forall|j: int| 0 <= j < i ==> s[j] != c);
    assert(0 <= k < s.len() && s[k] == c && (forall|j: int| 0 <= j < k ==> s[j] != c));
    if i < k {
        assert(s[i] != c);
    } else if i > k {
        assert(s[k] != c);
    }
}

/// If `c` occurs nowhere in `s`, `find_char` points past the end.
proof fn lemma_find_char_absent(s: Seq<char>, c: char)
    requires
        forall|j: int| 0 <= j < s.len() ==> s[j] != c,
    ensures
        find_char(s, c) == s.len(),
{
}

/// A line as `BufRead::lines` would yield it: the terminating newline is
/// already gone, and a carriage return directly before it goes too.
pub open spec fn strip_cr(l: Seq<char>) -> Seq<char> {
    if l.len() > 0 && l.last() == '\r' {
        l.drop_last()
    } else {
        l
    }
}

/// What one source line means, in the priority order of the grammar:
/// all-whitespace separator, comment, continuation of the previous field, a
/// new `name: value` field, or nothing admissible.
pub enum SpecLine {
    Blank,
    Comment,
    Continuation(Seq<char>),
    Field(Seq<char>, Seq<char>),
    Bad,
}

/// Classifies one line. The decision looks at the first character that
/// survives right-trimming: `#` begins a comment, a space or tab marks a
/// continuation (whose text is the fully trimmed line), and anything else
/// must be a `name:value` pair, both sides trimmed. A line with no colon and
/// no leading whitespace fits nothing.
pub open spec fn classify(line: Seq<char>) -> SpecLine {
    let t = trim_end(line);
    if t.len() == 0 {
        SpecLine::Blank
    } else if t[0] == '#' {
        SpecLine::Comment
    } else if t[0] == ' ' || t[0] == '\t' {
        SpecLine::Continuation(trim(line))
    } else {
        let tr = trim(line);
        let c = find_char(tr, ':');
        if c >= tr.len() {
            SpecLine::Bad
        } else {
            SpecLine::Field(
                trim(tr.subrange(0, c)),
                trim(tr.subrange(c + 1, tr.len() as int)),
            )
        }
    }
}

// ---------------------------------------------------------------------------
// Paragraph model
// ---------------------------------------------------------------------------
/// One field of the paragraph: its tag as first written, its short
/// (first-line) value, and its long value — the newline-joined continuation
/// lines, empty while the field has none.
pub struct SpecField {
    pub tag: Seq<char>,
    pub short: Seq<char>,
    pub long: Seq<char>,
}

pub open spec fn package_tag() -> Seq<char> {
    seq!['p', 'a', 'c', 'k', 'a', 'g', 'e']
}

pub open spec fn version_tag() -> Seq<char> {
    seq!['v', 'e', 'r', 's', 'i', 'o', 'n']
}

pub open spec fn description_tag() -> Seq<char> {
    seq!['d', 'e', 's', 'c', 'r', 'i', 'p', 't', 'i', 'o', 'n']
}

/// `fs` holds a field whose tag equals `tag` up to ASCII case.
pub open spec fn has_tag(fs: Seq<SpecField>, tag: Seq<char>) -> bool {
    exists|i: int| 0 <= i < fs.len() && ci_eq(#[trigger] fs[i].tag, tag)
}

/// Invariant the parser maintains line by line: tags are pairwise distinct
/// up to ASCII case.
pub open spec fn para_wf(fs: Seq<SpecField>) -> bool {
    forall|i: int, j: int|
        0 <= i < j < fs.len() ==> !ci_eq(#[trigger] fs[i].tag, #[trigger] fs[j].tag)
}

/// Well-formedness of a completely parsed paragraph: distinct tags plus the
/// two required fields.
pub open spec fn wf_fields(fs: Seq<SpecField>) -> bool {
    &&& para_wf(fs)
    &&& has_tag(fs, package_tag())
    &&& has_tag(fs, version_tag())
}

// ---------------------------------------------------------------------------
// The parse, one line at a time
// ---------------------------------------------------------------------------
/// Folds one line into the paragraph built so far. A continuation line is
/// appended to the current field — the most recently opened one — whatever
/// that field is. `Err` is any fatally malformed line: a continuation before
/// any field, a duplicate tag, or a line that fits no class.
pub open spec fn parse_step(fs: Seq<SpecField>, line: Seq<char>) -> Result<Seq<SpecField>, ()> {
    match classify(line) {
        SpecLine::Blank => Ok(fs),
        SpecLine::Comment => Ok(fs),
        SpecLine::Continuation(cont) => {
            if fs.len() == 0 {
                Err(())
            } else {
                let last = fs.last();
                let folded = if last.long.len() == 0 {
                    cont
                } else {
                    last.long + seq!['\n'] + cont
                };
                Ok(
                    fs.update(
                        fs.len() - 1,
                        SpecField { tag: last.tag, short: last.short, long: folded },
                    ),
                )
            }
        },
        SpecLine::Field(name, value) => {
            if has_tag(fs, name) {
                Err(())
            } else {
                Ok(fs.push(SpecField { tag: name, short: value, long: Seq::empty() }))
            }
        },
        SpecLine::Bad => Err(()),
    }
}

/// The outcome of parsing a whole metadata text.
pub enum ParseOutcome {
    Fields(Seq<SpecField>),
    Invalid,
    MissingPackage,
    MissingVersion,
}

/// The required-field checks that close a parse, package name first.
pub open spec fn parse_finish(fs: Seq<SpecField>) -> ParseOutcome {
    if !has_tag(fs, package_tag()) {
        ParseOutcome::MissingPackage
    } else if !has_tag(fs, version_tag()) {
        ParseOutcome::MissingVersion
    } else {
        ParseOutcome::Fields(fs)
    }
}

/// Parses the remaining text `s`, given the paragraph built so far. Lines
/// are cut at each newline; a carriage return directly before a newline is
/// dropped.
pub open spec fn spec_parse_rest(fs: Seq<SpecField>, s: Seq<char>) -> ParseOutcome
    decreases s.len(),
{
    if s.len() == 0 {
        parse_finish(fs)
    } else {
        let i = find_char(s, '\n');
        if i >= s.len() {
            match parse_step(fs, s) {
                Err(_) => ParseOutcome::Invalid,
                Ok(fs2) => parse_finish(fs2),
            }
        } else {
            match parse_step(fs, strip_cr(s.subrange(0, i))) {
                Err(_) => ParseOutcome::Invalid,
                Ok(fs2) => spec_parse_rest(fs2, s.subrange(i + 1, s.len() as int)),
            }
        }
    }
}

/// The meaning of a whole metadata text.
pub open spec fn spec_parse(s: Seq<char>) -> ParseOutcome {
    spec_parse_rest(Seq::empty(), s)
}

// ---------------------------------------------------------------------------
// The stored paragraph
// ---------------------------------------------------------------------------
/// One stored field.
#[derive(Debug)]
struct Field {
    tag: String,
    short: String,
    long: String,
}

impl View for Field {
    type V = SpecField;

    closed spec fn view(&self) -> SpecField {
        SpecField { tag: self.tag@, short: self.short@, long: self.long@ }
    }
}

impl DeepView for Field {
    type V = SpecField;

    closed spec fn deep_view(&self) -> SpecField {
        self.view()
    }
}

/// Stores the Debian package's control information: the ordered,
/// case-insensitively keyed field table of the metadata paragraph.
#[derive(Debug)]
pub struct Control {
    fields: Vec<Field>,
}

impl View for Control {
    type V = Seq<SpecField>;

    closed spec fn view(&self) -> Seq<SpecField> {
        self.fields.deep_view()
    }
}

impl Control {
    /// Every `Control` that exists was parsed successfully, so it is a
    /// well-formed paragraph.
    #[verifier::type_invariant]
    pub open spec fn inv(self) -> bool {
        wf_fields(self@)
    }
}

/// Law: a lookup cannot tell two probes apart that are equal up to ASCII
/// case, so `get` answers the same for `"Architecture"`, `"architecture"`
/// and `"ARCHITECTURE"`.
pub proof fn lemma_lookup_case_insensitive(fs: Seq<SpecField>, p: Seq<char>, q: Seq<char>)
    requires
        ci_eq(p, q),
    ensures
        has_tag(fs, p) <==> has_tag(fs, q),
        forall|i: int| 0 <= i < fs.len() ==> (ci_eq(#[trigger] fs[i].tag, p) <==> ci_eq(fs[i].tag, q)),
{
    assert forall|i: int| 0 <= i < fs.len() implies (ci_eq(#[trigger] fs[i].tag, p) <==> ci_eq(
        fs[i].tag,
        q,
    )) by {
        if ci_eq(fs[i].tag, p) {
            lemma_ci_eq_trans(fs[i].tag, p, q);
        }
        if ci_eq(fs[i].tag, q) {
            lemma_ci_eq_sym(p, q);
            lemma_ci_eq_trans(fs[i].tag, q, p);
        }
    }
}

/// One parse step keeps the tags pairwise distinct.
proof fn lemma_step_preserves_wf(fs: Seq<SpecField>, line: Seq<char>)
    requires
        para_wf(fs),
        parse_step(fs, line) is Ok,
    ensures
        para_wf(parse_step(fs, line)->Ok_0),
{
    let fs2 = parse_step(fs, line)->Ok_0;
    match classify(line) {
        SpecLine::Continuation(_) => {
            assert(forall|i: int| 0 <= i < fs2.len() ==> fs2[i].tag == fs[i].tag);
        },
        SpecLine::Field(name, _) => {
            assert(forall|i: int| 0 <= i < fs.len() ==> fs2[i] == fs[i]);
            assert(!has_tag(fs, name));
            assert forall|i: int, j: int| 0 <= i < j < fs2.len() implies !ci_eq(
                #[trigger] fs2[i].tag,
                #[trigger] fs2[j].tag,
            ) by {
                if j == fs2.len() - 1 {
                    if ci_eq(fs2[i].tag, name) {
                        assert(has_tag(fs, name));
                    }
                }
            }
        },
        _ => {},
    }
}

/// Index of the first field whose tag matches `probe` up to ASCII case.
fn find_tag_idx(fields: &Vec<Field>, probe: &str) -> (r: Option<usize>)
    ensures
        match r {
            Some(i) => 0 <= i < fields.deep_view().len() && ci_eq(
                fields.deep_view()[i as int].tag,
                probe@,
            ) && (forall|j: int| 0 <= j < i ==> !ci_eq(fields.deep_view()[j].tag, probe@)),
            None => !has_tag(fields.deep_view(), probe@),
        },
{
    let mut i: usize = 0;
    while i < fields.len()
        invariant
            i <= fields@.len(),
            forall|j: int| 0 <= j < i ==> !ci_eq(fields.deep_view()[j].tag, probe@),
        decreases fields@.len() - i,
    {
        if str_ci_eq(fields[i].tag.as_str(), probe) {
            return Some(i);
        }
        i += 1;
    }
    None
}

/// Folds one line into the paragraph built so far; see `parse_step` for the
/// grammar. A continuation line is appended to the most recently opened
/// field.
fn process_line(fields: &mut Vec<Field>, line: &str) -> (r: Result<(), Error>)
    requires
        para_wf(old(fields).deep_view()),
    ensures
        match parse_step(old(fields).deep_view(), line@) {
            Ok(fs) => r is Ok && final(fields).deep_view() == fs && para_wf(fs),
            Err(_) => r is Err && r->Err_0 is InvalidControlFile,
        },
{
    let n = line.unicode_len();
    let te = trim_end_idx(line, n);
    if te == 0 {
        // a separator between paragraphs; the format allows one paragraph,
        // so the line carries nothing and is tolerated
        return Ok(());
    }
    let c0 = line.get_char(0);
    proof {
        assert(trim_end(line@)[0] == line@[0]);
    }
    if c0 == '#' {
        // comment line
        return Ok(());
    }
    if c0 == ' ' || c0 == '\t' {
        // continuation of the current field
        let (ts, te2) = trim_idx(line);
        if fields.len() == 0 {
            return Err(Error::InvalidControlFile);
        }
        let ghost fs = fields.deep_view();
        let f = fields.pop().unwrap();
        proof {
            assert(f@ == fs.last());
        }
        let tag = f.tag;
        let short = f.short;
        let mut long = f.long;
        let cont = line.substring_char(ts, te2);
        if long.as_str().is_empty() {
            long = cont.to_owned();
        } else {
            long.append("\n");
            long.append(cont);
        }
        proof {
            reveal_strlit("\n");
            assert(("\n")@ =~= seq!['\n']);
        }
        fields.push(Field { tag, short, long });
        proof {
            let fs2 = parse_step(fs, line@)->Ok_0;
            assert(fields.deep_view() =~= fs2);
            lemma_step_preserves_wf(fs, line@);
        }
        Ok(())
    } else {
        // a new field line
        let (ts, te2) = trim_idx(line);
        let ghost tr = trim(line@);
        let mut k = ts;
        while k < te2 && line.get_char(k) != ':'
            invariant
                ts <= k <= te2 <= line@.len(),
                tr == trim(line@),
                tr == line@.subrange(ts as int, te2 as int),
                forall|j: int| ts <= j < k ==> line@[j] != ':',
            decreases te2 - k,
        {
            k += 1;
        }
        proof {
            assert(forall|j: int| 0 <= j < k - ts ==> tr[j] != ':');
            if k < te2 {
                lemma_find_char_at(tr, ':', k - ts);
            } else {
                lemma_find_char_absent(tr, ':');
            }
        }
        if k == te2 {
            // no colon: the line fits no class
            return Err(Error::InvalidControlFile);
        }
        let name_piece = line.substring_char(ts, k);
        let (a1, b1) = trim_idx(name_piece);
        let name_str = name_piece.substring_char(a1, b1);
        let value_piece = line.substring_char(k + 1, te2);
        let (a2, b2) = trim_idx(value_piece);
        let value_str = value_piece.substring_char(a2, b2);
        proof {
            assert(name_piece@ =~= tr.subrange(0, k - ts));
            assert(value_piece@ =~= tr.subrange(k - ts + 1, tr.len() as int));
            assert(classify(line@) == SpecLine::Field(trim(name_piece@), trim(value_piece@)));
        }
        if find_tag_idx(fields, name_str).is_some() {
            // duplicate tag
            return Err(Error::InvalidControlFile);
        }
        let ghost fs = fields.deep_view();
        fields.push(Field { tag: name_str.to_owned(), short: value_str.to_owned(), long: String::new() });
        proof {
            let fs2 = parse_step(fs, line@)->Ok_0;
            assert(fields.deep_view() =~= fs2);
            lemma_step_preserves_wf(fs, line@);
        }
        Ok(())
    }
}

/// The capitalisation of the description tag as it is usually written.
spec fn description_tag_caps() -> Seq<char> {
    seq!['D', 'e', 's', 'c', 'r', 'i', 'p', 't', 'i', 'o', 'n']
}

impl Control {
    /// Parses the metadata paragraph out of the decoded control text.
    ///
    /// The text is read line by line: comments are dropped, all-whitespace
    /// separators are tolerated, `name: value` lines open a new field, and a
    /// line starting with a space or tab appends a continuation line to the
    /// most recently opened field. A duplicate tag, a continuation before
    /// any field, or a line that fits no class is malformed; after the last
    /// line the paragraph must hold a package name and a version.
    #[verifier::rlimit(60)]
    pub fn parse(text: &str) -> (r: Result<Control, Error>)
        ensures
            match spec_parse(text@) {
                ParseOutcome::Fields(fs) => r is Ok && r->Ok_0@ == fs,
                ParseOutcome::Invalid => r is Err && r->Err_0 is InvalidControlFile,
                ParseOutcome::MissingPackage => r is Err && r->Err_0 is MissingPackageName,
                ParseOutcome::MissingVersion => r is Err && r->Err_0 is MissingPackageVersion,
            },
    {
        let n = text.unicode_len();
        let mut fields: Vec<Field> = Vec::new();
        let mut pos: usize = 0;
        proof {
            assert(text@.subrange(0, n as int) =~= text@);
            assert(fields.deep_view() =~= Seq::<SpecField>::empty());
        }
        while pos < n
            invariant
                pos <= n,
                n == text@.len(),
                para_wf(fields.deep_view()),
                spec_parse_rest(fields.deep_view(), text@.subrange(pos as int, n as int))
                    == spec_parse(text@),
            decreases n - pos,
        {
            let ghost suffix = text@.subrange(pos as int, n as int);
            let mut j = pos;
            while j < n && text.get_char(j) != '\n'
                invariant
                    pos <= j <= n,
                    n == text@.len(),
                    forall|t: int| pos <= t < j ==> text@[t] != '\n',
                decreases n - j,
            {
                j += 1;
            }
            proof {
                assert(forall|t: int| 0 <= t < j - pos ==> suffix[t] != '\n');
                if j < n {
                    assert(suffix[j - pos] == '\n');
                    lemma_find_char_at(suffix, '\n', j - pos);
                } else {
                    lemma_find_char_absent(suffix, '\n');
                }
            }
            let had_nl = j < n;
            let mut line_end = j;
            if had_nl && line_end > pos && text.get_char(line_end - 1) == '\r' {
                line_end -= 1;
            }
            let line = text.substring_char(pos, line_end);
            proof {
                if had_nl {
                    let raw = suffix.subrange(0, j - pos);
                    assert(raw =~= text@.subrange(pos as int, j as int));
                    if j > pos && text@[j - 1] == '\r' {
                        assert(raw.last() == '\r');
                        assert(line@ =~= raw.drop_last());
                    } else {
                        assert(line@ =~= raw);
                    }
                    assert(line@ == strip_cr(raw));
                } else {
                    assert(line@ =~= suffix);
                }
            }
            let step_res = process_line(&mut fields, line);
            match step_res {
                Err(e) => {
                    return Err(e);
                },
                Ok(()) => {},
            }
            proof {
                if had_nl {
                    assert(suffix.subrange(j - pos + 1, suffix.len() as int) =~= text@.subrange(
                        j + 1,
                        n as int,
                    ));
                }
            }
            pos = if had_nl {
                j + 1
            } else {
                n
            };
        }
        proof {
            assert(text@.subrange(pos as int, n as int).len() == 0);
        }
        proof {
            reveal_strlit("Package");
            assert(("Package")@ =~= seq!['P', 'a', 'c', 'k', 'a', 'g', 'e']);
            assert(ci_eq(("Package")@, package_tag()));
            lemma_lookup_case_insensitive(fields.deep_view(), ("Package")@, package_tag());
        }
        if find_tag_idx(&fields, "Package").is_none() {
            return Err(Error::MissingPackageName);
        }
        proof {
            reveal_strlit("Version");
            assert(("Version")@ =~= seq!['V', 'e', 'r', 's', 'i', 'o', 'n']);
            assert(ci_eq(("Version")@, version_tag()));
            lemma_lookup_case_insensitive(fields.deep_view(), ("Version")@, version_tag());
        }
        if find_tag_idx(&fields, "Version").is_none() {
            return Err(Error::MissingPackageVersion);
        }
        Ok(Control { fields })
    }
}

/// Two fields matching the same probe are the same field, since tags are
/// pairwise distinct up to case.
proof fn lemma_unique_match(fs: Seq<SpecField>, p: Seq<char>, i: int, m: int)
    requires
        forall|x: int, y: int|
            0 <= x < y < fs.len() ==> !ci_eq(#[trigger] fs[x].tag, #[trigger] fs[y].tag),
        0 <= i < fs.len(),
        0 <= m < fs.len(),
        ci_eq(fs[i].tag, p),
        ci_eq(fs[m].tag, p),
    ensures
        i == m,
{
    if i != m {
        lemma_ci_eq_sym(fs[m].tag, p);
        lemma_ci_eq_trans(fs[i].tag, p, fs[m].tag);
        lemma_ci_eq_sym(fs[i].tag, fs[m].tag);
    }
}

impl Control {
    /// Returns the short (first-line) value of the field named `field_name`,
    /// where the name is compared ignoring ASCII case.
    pub fn get(&self, field_name: &str) -> (r: Option<&str>)
        ensures
            r is Some <==> has_tag(self@, field_name@),
            forall|i: int|
                0 <= i < self@.len() && ci_eq(#[trigger] self@[i].tag, field_name@) ==> r is Some
                    && r->Some_0@ == self@[i].short,
    {
        proof {
            use_type_invariant(self);
        }
        match find_tag_idx(&self.fields, field_name) {
            Some(i) => {
                proof {
                    assert forall|m: int|
                        0 <= m < self@.len() && ci_eq(
                            #[trigger] self@[m].tag,
                            field_name@,
                        ) implies m == i by {
                        lemma_unique_match(self@, field_name@, i as int, m);
                    }
                }
                Some(self.fields[i].short.as_str())
            },
            None => None,
        }
    }

    /// Returns the package name: the short value of the "Package" field.
    pub fn name(&self) -> (r: &str)
        ensures
            exists|i: int|
                0 <= i < self@.len() && ci_eq(#[trigger] self@[i].tag, package_tag()) && r@
                    == self@[i].short,
    {
        proof {
            use_type_invariant(self);
            reveal_strlit("Package");
            assert(("Package")@ =~= seq!['P', 'a', 'c', 'k', 'a', 'g', 'e']);
            assert(ci_eq(("Package")@, package_tag()));
            lemma_lookup_case_insensitive(self@, ("Package")@, package_tag());
        }
        match self.get("Package") {
            Some(v) => v,
            None => unreached(),
        }
    }

    /// Returns the package version: the short value of the "Version" field.
    pub fn version(&self) -> (r: &str)
        ensures
            exists|i: int|
                0 <= i < self@.len() && ci_eq(#[trigger] self@[i].tag, version_tag()) && r@
                    == self@[i].short,
    {
        proof {
            use_type_invariant(self);
            reveal_strlit("Version");
            assert(("Version")@ =~= seq!['V', 'e', 'r', 's', 'i', 'o', 'n']);
            assert(ci_eq(("Version")@, version_tag()));
            lemma_lookup_case_insensitive(self@, ("Version")@, version_tag());
        }
        match self.get("Version") {
            Some(v) => v,
            None => unreached(),
        }
    }

    /// Returns the short description, if the paragraph has one.
    pub fn short_description(&self) -> (r: Option<&str>)
        ensures
            r is Some <==> has_tag(self@, description_tag()),
            forall|i: int|
                0 <= i < self@.len() && ci_eq(#[trigger] self@[i].tag, description_tag()) ==> r
                    is Some && r->Some_0@ == self@[i].short,
    {
        proof {
            reveal_strlit("Description");
            assert(("Description")@ =~= description_tag_caps());
            assert(ci_eq(("Description")@, description_tag()));
            lemma_lookup_case_insensitive(self@, ("Description")@, description_tag());
        }
        self.get("Description")
    }

    /// Returns the continuation lines of the description joined by newlines,
    /// or nothing when the description has no continuation lines.
    pub fn long_description(&self) -> (r: Option<&str>)
        ensures
            r is Some <==> (exists|i: int|
                0 <= i < self@.len() && ci_eq(#[trigger] self@[i].tag, description_tag())
                    && self@[i].long.len() > 0),
            forall|i: int|
                (0 <= i < self@.len() && ci_eq(#[trigger] self@[i].tag, description_tag())
                    && self@[i].long.len() > 0) ==> r is Some && r->Some_0@ == self@[i].long,
    {
        proof {
            use_type_invariant(self);
            reveal_strlit("Description");
            assert(("Description")@ =~= description_tag_caps());
            assert(ci_eq(("Description")@, description_tag()));
            lemma_lookup_case_insensitive(self@, ("Description")@, description_tag());
        }
        match find_tag_idx(&self.fields, "Description") {
            None => None,
            Some(i) => {
                proof {
                    assert forall|m: int|
                        0 <= m < self@.len() && ci_eq(
                            #[trigger] self@[m].tag,
                            description_tag(),
                        ) implies m == i by {
                        lemma_unique_match(self@, description_tag(), i as int, m);
                    }
                }
                if self.fields[i].long.as_str().is_empty() {
                    None
                } else {
                    Some(self.fields[i].long.as_str())
                }
            },
        }
    }

    /// Returns all field tags, in insertion order, each in the case it was
    /// first written.
    pub fn tags(&self) -> (r: Vec<String>)
        ensures
            r@.len() == self@.len(),
            forall|i: int| 0 <= i < self@.len() ==> r@[i]@ == self@[i].tag,
    {
        let mut out: Vec<String> = Vec::new();
        let mut i: usize = 0;
        while i < self.fields.len()
            invariant
                i <= self.fields@.len(),
                out@.len() == i,
                forall|j: int| 0 <= j < i ==> out@[j]@ == self@[j].tag,
        decreases self.fields@.len() - i,
        {
            out.push(self.fields[i].tag.clone());
            i += 1;
        }
        out
    }
}

// ---------------------------------------------------------------------------
// Extraction from the metadata archive
// ---------------------------------------------------------------------------
/// The bare path under which the metadata archive holds the control file,
/// the ASCII bytes of `control`.
pub open spec fn control_path_plain() -> Seq<u8> {
    seq![0x63u8, 0x6f, 0x6e, 0x74, 0x72, 0x6f, 0x6c]
}

/// The other accepted path form, the ASCII bytes of `./control`.
pub open spec fn control_path_dotted() -> Seq<u8> {
    seq![0x2eu8, 0x2f, 0x63, 0x6f, 0x6e, 0x74, 0x72, 0x6f, 0x6c]
}

/// `p` names the control file.
pub open spec fn is_control_path(p: Seq<u8>) -> bool {
    p == control_path_plain() || p == control_path_dotted()
}

/// The content of the first entry whose path names the control file.
pub open spec fn spec_find_control(es: Seq<(Seq<u8>, Seq<u8>)>) -> Option<Seq<u8>>
    decreases es.len(),
{
    if es.len() == 0 {
        None
    } else if is_control_path(es[0].0) {
        Some(es[0].1)
    } else {
        spec_find_control(es.drop_first())
    }
}

proof fn lemma_find_control_skip(es: Seq<(Seq<u8>, Seq<u8>)>, i: int)
    requires
        0 <= i <= es.len(),
        forall|j: int| 0 <= j < i ==> !is_control_path((#[trigger] es[j]).0),
    ensures
        spec_find_control(es) == spec_find_control(es.skip(i)),
    decreases i,
{
    if i > 0 {
        assert(!is_control_path(es[0].0));
        assert(spec_find_control(es) == spec_find_control(es.drop_first()));
        assert(es.drop_first().skip(i - 1) =~= es.skip(i));
        assert(forall|j: int|
            0 <= j < i - 1 ==> !is_control_path((#[trigger] es.drop_first()[j]).0));
        lemma_find_control_skip(es.drop_first(), i - 1);
    } else {
        assert(es.skip(0) =~= es);
    }
}

/// `p` is `control` or `./control`.
fn is_control_path_exec(p: &[u8]) -> (r: bool)
    ensures
        r == is_control_path(p@),
{
    let plain = p.len() == 7 && p[0] == 0x63 && p[1] == 0x6f && p[2] == 0x6e && p[3] == 0x74 && p[4]
        == 0x72 && p[5] == 0x6f && p[6] == 0x6c;
    let dotted = p.len() == 9 && p[0] == 0x2e && p[1] == 0x2f && p[2] == 0x63 && p[3] == 0x6f
        && p[4] == 0x6e && p[5] == 0x74 && p[6] == 0x72 && p[7] == 0x6f && p[8] == 0x6c;
    proof {
        if plain {
            assert(p@ =~= control_path_plain());
        } else {
            assert(p@ != control_path_plain());
        }
        if dotted {
            assert(p@ =~= control_path_dotted());
        } else {
            assert(p@ != control_path_dotted());
        }
    }
    plain || dotted
}

impl Control {
    /// Finds the control file in the metadata archive — the first entry
    /// named `control` or `./control` — decodes it as UTF-8, and parses it.
    ///
    /// When the walk of the archive stops on a read error before any control
    /// entry, that error is reported; a complete walk without a control
    /// entry reports the file as missing.
    pub fn extract(archive: TarArchive) -> (r: Result<Control, Error>)
        ensures
            ({
                let es = tar_scan_of(archive@).0;
                let fault = tar_scan_of(archive@).1;
                match spec_find_control(es) {
                    None => r is Err && (if fault {
                        r->Err_0 is Io
                    } else {
                        r->Err_0 is MissingControlFile
                    }),
                    Some(content) => {
                        if !valid_utf8(content) {
                            r is Err && r->Err_0 is Io
                        } else {
                            match spec_parse(decode_utf8(content)) {
                                ParseOutcome::Fields(fs) => r is Ok && r->Ok_0@ == fs,
                                ParseOutcome::Invalid => r is Err && r->Err_0
                                    is InvalidControlFile,
                                ParseOutcome::MissingPackage => r is Err && r->Err_0
                                    is MissingPackageName,
                                ParseOutcome::MissingVersion => r is Err && r->Err_0
                                    is MissingPackageVersion,
                            }
                        }
                    },
                }
            }),
    {
        let (entries, fault) = tar_scan(archive.bytes());
        let ghost es = tar_scan_of(archive@).0;
        let mut i: usize = 0;
        while i < entries.len()
            invariant
                i <= entries@.len(),
                es == tar_scan_of(archive@).0,
                (fault is Some) == tar_scan_of(archive@).1,
                entries@.len() == es.len(),
                forall|j: int| 0 <= j < entries@.len() ==> (#[trigger] entries@[j])@ == es[j],
                forall|j: int| 0 <= j < i ==> !is_control_path((#[trigger] es[j]).0),
            decreases entries@.len() - i,
        {
            if is_control_path_exec(entries[i].path_bytes()) {
                proof {
                    lemma_find_control_skip(es, i as int);
                    assert(es.skip(i as int).len() > 0);
                    assert(es.skip(i as int)[0] == es[i as int]);
                    assert(spec_find_control(es) == Some(es[i as int].1));
                }
                return match core::str::from_utf8(entries[i].content_bytes()) {
                    Ok(text) => Control::parse(text),
                    Err(_) => Err(Error::Io(crate::error::invalid_data_error())),
                };
            }
            i += 1;
        }
        proof {
            lemma_find_control_skip(es, es.len() as int);
            assert(es.skip(es.len() as int).len() == 0);
        }
        match fault {
            Some(e) => Err(Error::Io(e)),
            None => Err(Error::MissingControlFile),
        }
    }
}

proof fn lemma_parse_rest_wf(fs: Seq<SpecField>, s: Seq<char>)
    requires
        para_wf(fs),
    ensures
        spec_parse_rest(fs, s) matches ParseOutcome::Fields(r) ==> wf_fields(r),
    decreases s.len(),
{
    if s.len() == 0 {
    } else {
        let i = find_char(s, '\n');
        if i >= s.len() {
            if parse_step(fs, s) is Ok {
                lemma_step_preserves_wf(fs, s);
            }
        } else {
            let line = strip_cr(s.subrange(0, i));
            if parse_step(fs, line) is Ok {
                lemma_step_preserves_wf(fs, line);
                lemma_parse_rest_wf(parse_step(fs, line)->Ok_0, s.subrange(i + 1, s.len() as int));
            }
        }
    }
}

/// Law: any text that parses successfully yields a well-formed paragraph:
/// tags pairwise distinct up to ASCII case, with fields equivalent to
/// "Package" and "Version" present.
pub proof fn lemma_parse_well_formed(s: Seq<char>)
    ensures
        spec_parse(s) matches ParseOutcome::Fields(fs) ==> wf_fields(fs),
{
    lemma_parse_rest_wf(Seq::empty(), s);
}

} // verus!
