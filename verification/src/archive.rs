//! The outer sequential archive and the nested fixed-format archive, read
//! as black boxes into plain lists of named entries.

use vstd::prelude::*;
use vstd::utf8::{decode_utf8, valid_utf8};

use crate::error::Error;

verus! {

/// One member of the outer archive: its identifier and its content bytes.
#[derive(Debug)]
pub(crate) struct ArEntry {
    pub(crate) identifier: Vec<u8>,
    pub(crate) data: Vec<u8>,
}

impl View for ArEntry {
    type V = (Seq<u8>, Seq<u8>);

    closed spec fn view(&self) -> (Seq<u8>, Seq<u8>) {
        (self.identifier@, self.data@)
    }
}

impl ArEntry {
    pub(crate) fn ident_bytes(&self) -> (r: &[u8])
        ensures
            r@ == self@.0,
    {
        self.identifier.as_slice()
    }

    pub(crate) fn content_bytes(&self) -> (r: &[u8])
        ensures
            r@ == self@.1,
    {
        self.data.as_slice()
    }
}

/// One entry of the nested archive: its path bytes and its content bytes.
pub(crate) struct TarEntry {
    pub(crate) path: Vec<u8>,
    pub(crate) data: Vec<u8>,
}

impl View for TarEntry {
    type V = (Seq<u8>, Seq<u8>);

    closed spec fn view(&self) -> (Seq<u8>, Seq<u8>) {
        (self.path@, self.data@)
    }
}

impl TarEntry {
    pub(crate) fn path_bytes(&self) -> (r: &[u8])
        ensures
            r@ == self@.0,
    {
        self.path.as_slice()
    }

    pub(crate) fn content_bytes(&self) -> (r: &[u8])
        ensures
            r@ == self@.1,
    {
        self.data.as_slice()
    }
}

// ---------------------------------------------------------------------------
// Guarding the outer archive reader
//
// The outer archive reader resolves a GNU-style long name — a member whose
// identifier is `/` followed by a decimal index — by slicing its name table
// at that index, without checking the index against the table's length. On a
// crafted archive that indexing is out of range and the reader panics
// instead of returning an error. The walk below mirrors the reader's own
// traversal of the headers exactly as far as that indexing, so that such an
// archive can be rejected before the reader ever sees it.
// ---------------------------------------------------------------------------
/// `c` is a digit of `radix` (only 8 and 10 are used).
pub open spec fn field_digit(c: char, radix: u32) -> bool {
    0x30 <= c as u32 && (c as u32) < 0x30 + radix
}

/// Numeric value of a run of digits of `radix`, most significant first.
pub open spec fn field_value(ds: Seq<char>, radix: u32) -> nat
    decreases ds.len(),
{
    if ds.len() == 0 {
        0
    } else {
        (field_value(ds.drop_last(), radix) * radix + (ds.last() as u32 - 0x30)) as nat
    }
}

/// Every character of `ds` is a digit of `radix`.
pub open spec fn all_field_digits(ds: Seq<char>, radix: u32) -> bool {
    forall|i: int| 0 <= i < ds.len() ==> field_digit(#[trigger] ds[i], radix)
}

/// The digit run a header field carries once decoded: trailing whitespace
/// trimmed, one leading plus sign allowed.
pub open spec fn field_digits_of(bytes: Seq<u8>) -> Seq<char> {
    let cs = crate::control::trim_end(decode_utf8(bytes));
    if cs.len() >= 1 && cs[0] == '+' {
        cs.drop_first()
    } else {
        cs
    }
}

/// The number a header field denotes, exactly as the archive reader parses
/// it: the bytes must be UTF-8, trailing whitespace is trimmed, one leading
/// plus sign is allowed, and the rest must be one or more digits of the
/// radix whose value fits in `u64`.
pub open spec fn spec_field_number(bytes: Seq<u8>, radix: u32) -> Option<u64> {
    let ds = field_digits_of(bytes);
    if !valid_utf8(bytes) {
        Option::None
    } else if ds.len() == 0 {
        Option::None
    } else if !all_field_digits(ds, radix) {
        Option::None
    } else if field_value(ds, radix) > u64::MAX {
        Option::None
    } else {
        Option::Some(field_value(ds, radix) as u64)
    }
}

/// Extending a digit run by one digit multiplies its value by the radix and
/// adds the new digit.
proof fn lemma_field_value_step(ds: Seq<char>, k: int, radix: u32)
    requires
        0 <= k < ds.len(),
    ensures
        field_value(ds.subrange(0, k + 1), radix) == (field_value(ds.subrange(0, k), radix)
            * radix + (ds[k] as u32 - 0x30)) as nat,
{
    assert(ds.subrange(0, k + 1).drop_last() =~= ds.subrange(0, k));
    assert(ds.subrange(0, k + 1).last() == ds[k]);
}

/// The value of a digit run is at least the value of any of its prefixes.
proof fn lemma_field_value_prefix(ds: Seq<char>, m: int, radix: u32)
    requires
        0 <= m <= ds.len(),
        radix == 8 || radix == 10,
        all_field_digits(ds, radix),
    ensures
        field_value(ds, radix) >= field_value(ds.subrange(0, m), radix),
    decreases ds.len() - m,
{
    if m == ds.len() {
        assert(ds.subrange(0, m) =~= ds);
    } else {
        lemma_field_value_step(ds, m, radix);
        lemma_field_value_prefix(ds, m + 1, radix);
    }
}

/// Parses one numeric header field as the archive reader does; see
/// `spec_field_number`.
fn field_number(bytes: &[u8], radix: u32) -> (r: Option<u64>)
    requires
        radix == 8 || radix == 10,
    ensures
        r == spec_field_number(bytes@, radix),
{
    let s = match core::str::from_utf8(bytes) {
        Ok(s) => s,
        Err(_) => {
            return None;
        },
    };
    let n = s.unicode_len();
    let e = crate::control::trim_end_idx(s, n);
    let start: usize = if e >= 1 && s.get_char(0) == '+' {
        1
    } else {
        0
    };
    let ghost ds = s@.subrange(start as int, e as int);
    proof {
        let cs = crate::control::trim_end(s@);
        if cs.len() >= 1 && cs[0] == '+' {
            assert(cs.drop_first() =~= ds);
        } else {
            assert(cs =~= ds);
        }
        assert(ds == field_digits_of(bytes@));
    }
    if start >= e {
        return None;
    }
    let mut acc: u64 = 0;
    let mut k = start;
    while k < e
        invariant
            start <= k <= e <= s@.len(),
            start < e,
            n == s@.len(),
            radix == 8 || radix == 10,
            valid_utf8(bytes@),
            s@ == decode_utf8(bytes@),
            ds == s@.subrange(start as int, e as int),
            ds == field_digits_of(bytes@),
            forall|j: int| start <= j < k ==> field_digit(s@[j], radix),
            acc == field_value(s@.subrange(start as int, k as int), radix),
        decreases e - k,
    {
        let c = s.get_char(k) as u32;
        if !(0x30 <= c && c < 0x30 + radix) {
            proof {
                assert(!field_digit(ds[k - start], radix));
                assert(!all_field_digits(ds, radix));
            }
            return None;
        }
        let d = (c - 0x30) as u64;
        proof {
            assert(s@.subrange(start as int, k as int) =~= ds.subrange(0, k - start));
            assert(s@.subrange(start as int, k + 1) =~= ds.subrange(0, k - start + 1));
            lemma_field_value_step(ds, k - start, radix);
        }
        let next: u128 = if radix == 10 {
            acc as u128 * 10 + d as u128
        } else {
            acc as u128 * 8 + d as u128
        };
        if next > u64::MAX as u128 {
            proof {
                // either a later byte is no digit — the parse fails on it —
                // or the full run's value tops this prefix's, which already
                // exceeds `u64`
                if all_field_digits(ds, radix) {
                    lemma_field_value_prefix(ds, k - start + 1, radix);
                }
            }
            return None;
        }
        acc = next as u64;
        k += 1;
    }
    proof {
        assert(s@.subrange(start as int, e as int) =~= ds);
        assert forall|i: int| 0 <= i < ds.len() implies field_digit(#[trigger] ds[i], radix) by {
            assert(ds[i] == s@[start + i]);
        }
    }
    Some(acc)
}

/// `id` without trailing spaces, as the archive reader trims a member's
/// identifier field.
pub open spec fn trim_spaces(id: Seq<u8>) -> Seq<u8>
    decreases id.len(),
{
    if id.len() > 0 && id.last() == 0x20 {
        trim_spaces(id.drop_last())
    } else {
        id
    }
}

proof fn lemma_trim_spaces_at(id: Seq<u8>, e: int)
    requires
        0 <= e <= id.len(),
        forall|j: int| e <= j < id.len() ==> id[j] == 0x20,
        e > 0 ==> id[e - 1] != 0x20,
    ensures
        trim_spaces(id) == id.subrange(0, e),
    decreases id.len(),
{
    if id.len() == 0 {
        assert(id.subrange(0, 0) =~= id);
    } else if id.last() == 0x20 {
        lemma_trim_spaces_at(id.drop_last(), e);
        assert(id.drop_last().subrange(0, e) =~= id.subrange(0, e));
    } else {
        assert(e == id.len());
        assert(id.subrange(0, e) =~= id);
    }
}

/// The identifier of the GNU symbol lookup table, the single byte `/`.
pub open spec fn gnu_symbol_table_id() -> Seq<u8> {
    seq![0x2fu8]
}

/// The identifier of the GNU name table, the ASCII bytes `//`.
pub open spec fn gnu_name_table_id() -> Seq<u8> {
    seq![0x2fu8, 0x2f]
}

/// `id` opens a BSD-style extended identifier, the ASCII bytes `#1/`.
pub open spec fn is_bsd_extended_id(id: Seq<u8>) -> bool {
    id.len() >= 3 && id[0] == 0x23 && id[1] == 0x31 && id[2] == 0x2f
}

/// Whether the archive reader's walk panics, starting from a member header
/// at `pos` with a name table of `table_len` bytes, `gnu` saying whether a
/// GNU-style identifier has been seen. Each step mirrors the reader: a short
/// or unparseable header stops the scan with an error (no panic); `/` and
/// `//` members are the symbol and name tables; any other `/`-prefixed
/// identifier is a name-table reference, which panics exactly when its index
/// exceeds the table's length; an identifier ending in `/` marks the GNU
/// variant; a `#1/` identifier seen while the variant is still undecided
/// switches the reader to the BSD variant, after which the name-table code
/// is unreachable. Numeric fields that the reader checks only after the
/// indexing are not re-checked here.
pub open spec fn spec_ar_walk_panics(s: Seq<u8>, pos: int, table_len: u64, gnu: bool) -> bool
    decreases s.len() - pos, 1int,
{
    if pos < 0 || pos + 60 > s.len() {
        false
    } else {
        let id = trim_spaces(s.subrange(pos, pos + 16));
        match spec_field_number(s.subrange(pos + 48, pos + 58), 10) {
            Option::None => false,
            Option::Some(size) => {
                if id.len() > 0 && id[0] == 0x2f {
                    if id == gnu_symbol_table_id() {
                        spec_ar_advance(s, pos, size, table_len, true)
                    } else if id == gnu_name_table_id() {
                        spec_ar_advance(s, pos, size, size, true)
                    } else {
                        match spec_field_number(s.subrange(pos + 1, pos + 16), 10) {
                            Option::None => false,
                            Option::Some(start) => {
                                if start > table_len {
                                    true
                                } else {
                                    spec_ar_advance(s, pos, size, table_len, true)
                                }
                            },
                        }
                    }
                } else {
                    // an identifier ending in `/` marks the GNU variant
                    // before the reader looks for a BSD `#1/` identifier
                    let ends_slash = id.len() > 0 && id.last() == 0x2f;
                    if !gnu && !ends_slash && is_bsd_extended_id(id) {
                        false
                    } else {
                        spec_ar_advance(s, pos, size, table_len, gnu || ends_slash)
                    }
                }
            },
        }
    }
}

/// The walk's step over one member's data: an odd-sized member is followed
/// by one `\n` padding byte; a member that runs past the input's end stops
/// the scan (no panic).
pub open spec fn spec_ar_advance(s: Seq<u8>, pos: int, size: u64, table_len: u64, gnu: bool) -> bool
    decreases s.len() - pos, 0int,
{
    let after = pos + 60 + size;
    if size % 2 == 1 {
        if after >= s.len() {
            false
        } else if s[after] != 0x0a {
            false
        } else {
            spec_ar_walk_panics(s, after + 1, table_len, gnu)
        }
    } else {
        if after > s.len() {
            false
        } else {
            spec_ar_walk_panics(s, after, table_len, gnu)
        }
    }
}

/// The global header every archive opens with, the ASCII bytes `!<arch>\n`.
pub open spec fn ar_global_header() -> Seq<u8> {
    seq![0x21u8, 0x3c, 0x61, 0x72, 0x63, 0x68, 0x3e, 0x0a]
}

/// The inputs on which the outer archive reader would panic rather than
/// return: a well-formed prefix whose walk reaches a GNU name-table
/// reference pointing past the table's end.
pub open spec fn spec_ar_scan_panics(s: Seq<u8>) -> bool {
    if s.len() < 8 || s.subrange(0, 8) != ar_global_header() {
        false
    } else {
        spec_ar_walk_panics(s, 8, 0, false)
    }
}

/// Decides `spec_ar_scan_panics` by walking the member headers the way the
/// archive reader does.
pub(crate) fn ar_scan_panics(data: &[u8]) -> (r: bool)
    ensures
        r == spec_ar_scan_panics(data@),
{
    let n = data.len();
    if n < 8 {
        return false;
    }
    let global_ok = data[0] == 0x21 && data[1] == 0x3c && data[2] == 0x61 && data[3] == 0x72
        && data[4] == 0x63 && data[5] == 0x68 && data[6] == 0x3e && data[7] == 0x0a;
    proof {
        if global_ok {
            assert(data@.subrange(0, 8) =~= ar_global_header());
        } else {
            assert(data@.subrange(0, 8) != ar_global_header()) by {
                if data@.subrange(0, 8) == ar_global_header() {
                    assert(data@[0] == ar_global_header()[0]);
                    assert(data@[1] == ar_global_header()[1]);
                    assert(data@[2] == ar_global_header()[2]);
                    assert(data@[3] == ar_global_header()[3]);
                    assert(data@[4] == ar_global_header()[4]);
                    assert(data@[5] == ar_global_header()[5]);
                    assert(data@[6] == ar_global_header()[6]);
                    assert(data@[7] == ar_global_header()[7]);
                }
            }
        }
    }
    if !global_ok {
        return false;
    }
    let mut pos: usize = 8;
    let mut table_len: u64 = 0;
    let mut gnu = false;
    loop
        invariant
            8 <= pos <= n,
            n == data@.len(),
            spec_ar_walk_panics(data@, pos as int, table_len, gnu) == spec_ar_scan_panics(data@),
        decreases n - pos,
    {
        if n - pos < 60 {
            return false;
        }
        // the identifier field, trailing spaces trimmed
        let mut ie = pos + 16;
        while ie > pos && data[ie - 1] == 0x20
            invariant
                pos <= ie <= pos + 16,
                pos + 16 <= n,
                n == data@.len(),
                forall|j: int| ie <= j < pos + 16 ==> data@[j] == 0x20,
            decreases ie,
        {
            ie -= 1;
        }
        let ghost id = trim_spaces(data@.subrange(pos as int, pos + 16));
        proof {
            lemma_trim_spaces_at(data@.subrange(pos as int, pos + 16), ie - pos);
            assert(data@.subrange(pos as int, pos + 16).subrange(0, ie - pos) =~= data@.subrange(
                pos as int,
                ie as int,
            ));
        }
        let size = match field_number(vstd::slice::slice_subrange(data, pos + 48, pos + 58), 10) {
            Some(v) => v,
            None => {
                return false;
            },
        };
        // the branch the reader takes on this identifier
        if ie > pos && data[pos] == 0x2f {
            if ie - pos == 1 {
                // the symbol lookup table
                proof {
                    assert(id =~= gnu_symbol_table_id());
                }
                gnu = true;
            } else if ie - pos == 2 && data[pos + 1] == 0x2f {
                // the name table; its size becomes the table length
                proof {
                    assert(id =~= gnu_name_table_id());
                }
                table_len = size;
                gnu = true;
            } else {
                // a name-table reference
                proof {
                    assert(id != gnu_symbol_table_id());
                    assert(id != gnu_name_table_id());
                }
                match field_number(vstd::slice::slice_subrange(data, pos + 1, pos + 16), 10) {
                    None => {
                        return false;
                    },
                    Some(start) => {
                        if start > table_len {
                            return true;
                        }
                        gnu = true;
                    },
                }
            }
        } else {
            let ends_slash = ie > pos && data[ie - 1] == 0x2f;
            if !gnu && !ends_slash && ie - pos >= 3 && data[pos] == 0x23 && data[pos + 1] == 0x31
                && data[pos + 2] == 0x2f {
                return false;
            }
            if ends_slash {
                gnu = true;
            }
        }
        // step over the member's data and its padding byte
        if size > (n - pos - 60) as u64 {
            return false;
        }
        let after = pos + 60 + (size as usize);
        if size % 2 == 1 {
            if after >= n {
                return false;
            }
            if data[after] != 0x0a {
                return false;
            }
            pos = after + 1;
        } else {
            pos = after;
        }
    }
}

/// What scanning the outer archive yields on `s`: the members readable in
/// order, each as (identifier, content), and whether the scan stopped on a
/// read error rather than at the archive's end.
pub uninterp spec fn ar_scan_of(s: Seq<u8>) -> (Seq<(Seq<u8>, Seq<u8>)>, bool);

/// Relies on `ar::Archive::next_entry` (with `Header::identifier` and
/// `Read::read_to_end`): the members of an in-memory archive come in order,
/// each fully readable or the scan ends with the error, all a function of
/// the archive bytes alone. The reader panics on a GNU name-table reference
/// whose index lies past the table's end — it slices the table without a
/// bounds check — so those inputs are excluded here and rejected by
/// `ar_scan_panics` before the reader sees them.
#[verifier::external_body]
pub(crate) fn ar_scan(data: &[u8]) -> (r: (Vec<ArEntry>, Option<std::io::Error>))
    requires
        !spec_ar_scan_panics(data@),
    ensures
        r.0@.len() == ar_scan_of(data@).0.len(),
        forall|i: int| 0 <= i < r.0@.len() ==> (#[trigger] r.0@[i])@ == ar_scan_of(data@).0[i],
        (r.1 is Some) == ar_scan_of(data@).1,
{
    let mut archive = ar::Archive::new(data);
    let mut out = Vec::new();
    loop {
        let mut entry = match archive.next_entry() {
            None => return (out, None), Some(Err(e)) => return (out, Some(e)), Some(Ok(en)) => en,
        };
        let identifier = entry.header().identifier().to_vec();
        let mut content = Vec::new();
        if let Err(e) = std::io::Read::read_to_end(&mut entry, &mut content) { return (out, Some(e)); }
        out.push(ArEntry { identifier, data: content });
    }
}

/// What scanning the nested archive yields on `s`: the entries readable in
/// order, each as (path, content), and whether the walk stopped on a read
/// error rather than at the archive's end.
pub uninterp spec fn tar_scan_of(s: Seq<u8>) -> (Seq<(Seq<u8>, Seq<u8>)>, bool);

/// Relies on `tar::Archive::entries` (with `Entry::path_bytes` and
/// `Read::read_to_end`): the entries of an in-memory archive come in order,
/// each with its path bytes and content, or the walk ends with the error,
/// all a function of the archive bytes alone.
#[verifier::external_body]
pub(crate) fn tar_scan(data: &[u8]) -> (r: (Vec<TarEntry>, Option<std::io::Error>))
    ensures
        r.0@.len() == tar_scan_of(data@).0.len(),
        forall|i: int| 0 <= i < r.0@.len() ==> (#[trigger] r.0@[i])@ == tar_scan_of(data@).0[i],
        (r.1 is Some) == tar_scan_of(data@).1,
{
    let mut archive = tar::Archive::new(data);
    let mut out = Vec::new();
    let entries = match archive.entries() { Ok(es) => es, Err(e) => return (out, Some(e)) };
    for entry in entries {
        let mut entry = match entry { Ok(en) => en, Err(e) => return (out, Some(e)) };
        let path = entry.path_bytes().into_owned();
        let mut content = Vec::new();
        if let Err(e) = std::io::Read::read_to_end(&mut entry, &mut content) { return (out, Some(e)); }
        out.push(TarEntry { path, data: content });
    }
    (out, None)
}

/// Declaration of `core::str::Utf8Error`, the error of `str::from_utf8`.
#[verifier::external_type_specification]
#[verifier::external_body]
pub struct ExUtf8Error(core::str::Utf8Error);

/// Relies on `core::str::from_utf8`: succeeds exactly on valid UTF-8, and
/// then decodes it.
pub assume_specification[ core::str::from_utf8 ](v: &[u8]) -> (r: Result<
    &str,
    core::str::Utf8Error,
>)
    ensures
        r is Ok <==> valid_utf8(v@),
        r is Ok ==> r->Ok_0@ == decode_utf8(v@),
;

/// Every entry path in `es` is valid UTF-8.
pub open spec fn all_paths_utf8(es: Seq<(Seq<u8>, Seq<u8>)>) -> bool {
    forall|i: int| 0 <= i < es.len() ==> valid_utf8((#[trigger] es[i]).0)
}

/// A nested fixed-format archive, already decompressed; its view is the
/// archive's raw bytes.
#[derive(Debug)]
pub struct TarArchive {
    data: Vec<u8>,
}

impl View for TarArchive {
    type V = Seq<u8>;

    closed spec fn view(&self) -> Seq<u8> {
        self.data@
    }
}

impl TarArchive {
    pub(crate) fn new(data: Vec<u8>) -> (r: TarArchive)
        ensures
            r@ == data@,
    {
        TarArchive { data }
    }

    pub(crate) fn bytes(&self) -> (r: &[u8])
        ensures
            r@ == self@,
    {
        self.data.as_slice()
    }

    /// Consumes the archive, handing back its raw bytes.
    pub fn into_bytes(self) -> (r: Vec<u8>)
        ensures
            r@ == self@,
    {
        self.data
    }

    /// Lists the paths of the archive's entries, in order, decoded as UTF-8.
    ///
    /// Fails with an I/O error when the walk of the archive stops on a read
    /// error or when a path is not valid UTF-8.
    pub fn paths(&self) -> (r: Result<Vec<String>, Error>)
        ensures
            ({
                let es = tar_scan_of(self@).0;
                let fault = tar_scan_of(self@).1;
                if fault {
                    r is Err && r->Err_0 is Io
                } else if !all_paths_utf8(es) {
                    r is Err && r->Err_0 is Io
                } else {
                    &&& r is Ok
                    &&& r->Ok_0.deep_view().len() == es.len()
                    &&& forall|i: int|
                        0 <= i < es.len() ==> r->Ok_0.deep_view()[i] == decode_utf8(
                            (#[trigger] es[i]).0,
                        )
                }
            }),
    {
        let (entries, fault) = tar_scan(self.bytes());
        if let Some(e) = fault {
            return Err(Error::Io(e));
        }
        let mut out: Vec<String> = Vec::new();
        let mut i: usize = 0;
        let ghost es = tar_scan_of(self@).0;
        while i < entries.len()
            invariant
                i <= entries@.len(),
                es == tar_scan_of(self@).0,
                !tar_scan_of(self@).1,
                entries@.len() == es.len(),
                forall|j: int| 0 <= j < entries@.len() ==> (#[trigger] entries@[j])@ == es[j],
                out@.len() == i,
                forall|j: int| 0 <= j < i ==> valid_utf8((#[trigger] es[j]).0),
                forall|j: int| 0 <= j < i ==> out@[j]@ == decode_utf8((#[trigger] es[j]).0),
            decreases entries@.len() - i,
        {
            match core::str::from_utf8(entries[i].path.as_slice()) {
                Ok(path) => {
                    out.push(path.to_owned());
                },
                Err(_) => {
                    proof {
                        assert(!valid_utf8(es[i as int].0));
                        assert(!all_paths_utf8(es));
                    }
                    return Err(Error::Io(crate::error::invalid_data_error()));
                },
            }
            i += 1;
        }
        Ok(out)
    }
}

} // verus!
