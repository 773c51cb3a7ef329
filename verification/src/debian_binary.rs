//! Parsing of the `debian-binary` member, the format-version marker that must
//! open every package archive.

use vstd::prelude::*;

use crate::error::Error;

verus! {

/// The format version declared by the `debian-binary` member.
#[derive(Debug)]
pub struct DebianBinaryVersion {
    pub major: u32,
    pub minor: u32,
}

/// `b` is an ASCII decimal digit.
pub open spec fn is_digit(b: u8) -> bool {
    0x30 <= b <= 0x39
}

/// Numeric value of a run of ASCII digits, most significant digit first.
pub open spec fn dec_value(s: Seq<u8>) -> nat
    decreases s.len(),
{
    if s.len() == 0 {
        0
    } else {
        (dec_value(s.drop_last()) * 10 + (s.last() - 0x30)) as nat
    }
}

/// Position of the first occurrence of `b` at or after `from` (`s.len()` if
/// there is none).
pub open spec fn find_byte(s: Seq<u8>, from: int, b: u8) -> int
    decreases s.len() - from,
{
    if from < 0 || from >= s.len() {
        s.len() as int
    } else if s[from] == b {
        from
    } else {
        find_byte(s, from + 1, b)
    }
}

pub proof fn lemma_find_byte(s: Seq<u8>, from: int, b: u8)
    requires
        0 <= from <= s.len(),
    ensures
        from <= find_byte(s, from, b) <= s.len(),
        find_byte(s, from, b) < s.len() ==> s[find_byte(s, from, b)] == b,
        forall|j: int| from <= j < find_byte(s, from, b) ==> s[j] != b,
    decreases s.len() - from,
{
    if from < s.len() && s[from] != b {
        lemma_find_byte(s, from + 1, b);
    }
}

/// What the version marker's bytes denote: too short to examine, malformed,
/// or a well-formed `2.<minor>` line.
pub enum VersionOutcome {
    Truncated,
    Invalid,
    Minor(u32),
}

/// The meaning of the `debian-binary` member: the content must begin with the
/// ASCII bytes `2.` followed by one or more digits and a newline; everything
/// after the newline is ignored. Fewer than two bytes cannot even be
/// examined; any other defect (wrong prefix, a non-digit before the newline,
/// input that ends before a newline, no digits, a minor version beyond
/// `u32`) is malformed.
pub open spec fn spec_debian_binary(s: Seq<u8>) -> VersionOutcome {
    if s.len() < 2 {
        VersionOutcome::Truncated
    } else if !(s[0] == 0x32 && s[1] == 0x2e) {
        VersionOutcome::Invalid
    } else {
        let nl = find_byte(s, 2, 0x0a);
        if nl >= s.len() {
            VersionOutcome::Invalid
        } else if !(forall|j: int| 2 <= j < nl ==> is_digit(s[j])) {
            VersionOutcome::Invalid
        } else if nl == 2 {
            VersionOutcome::Invalid
        } else if dec_value(s.subrange(2, nl)) > u32::MAX {
            VersionOutcome::Invalid
        } else {
            VersionOutcome::Minor(dec_value(s.subrange(2, nl)) as u32)
        }
    }
}

/// Extending a digit run by one digit multiplies its value by ten and adds
/// the new digit.
proof fn lemma_dec_value_step(s: Seq<u8>, lo: int, k: int)
    requires
        0 <= lo <= k < s.len(),
    ensures
        dec_value(s.subrange(lo, k + 1)) == (dec_value(s.subrange(lo, k)) * 10 + (s[k]
            - 0x30)) as nat,
{
    assert(s.subrange(lo, k + 1).drop_last() =~= s.subrange(lo, k));
    assert(s.subrange(lo, k + 1).last() == s[k]);
}

/// The value of a digit run is at least the value of any of its prefixes.
proof fn lemma_dec_value_prefix(s: Seq<u8>, m: int)
    requires
        0 <= m <= s.len(),
        forall|j: int| 0 <= j < s.len() ==> is_digit(s[j]),
    ensures
        dec_value(s) >= dec_value(s.subrange(0, m)),
    decreases s.len() - m,
{
    if m == s.len() {
        assert(s.subrange(0, m) =~= s);
    } else {
        assert(s.subrange(0, m + 1).drop_last() =~= s.subrange(0, m));
        lemma_dec_value_prefix(s, m + 1);
    }
}

/// Parses the content of the `debian-binary` member.
///
/// The content must start with the ASCII bytes `2.`, followed by the digits
/// of the minor version and a newline, which must be present; bytes after
/// the newline are ignored.
pub fn parse_debian_binary_contents(data: &[u8]) -> (r: Result<DebianBinaryVersion, Error>)
    ensures
        match spec_debian_binary(data@) {
            VersionOutcome::Truncated => r is Err && r->Err_0 is Io,
            VersionOutcome::Invalid => r is Err && r->Err_0 is InvalidVersion,
            VersionOutcome::Minor(m) => r is Ok && r->Ok_0.major == 2 && r->Ok_0.minor == m,
        },
{
    if data.len() < 2 {
        return Err(Error::Io(crate::error::eof_error()));
    }
    if !(data[0] == 0x32 && data[1] == 0x2e) {
        return Err(Error::InvalidVersion);
    }
    proof {
        lemma_find_byte(data@, 2, 0x0a);
    }
    let ghost nl = find_byte(data@, 2, 0x0a);
    let mut i: usize = 2;
    while i < data.len() && data[i] != 0x0a
        invariant
            2 <= i <= data@.len(),
            forall|j: int| 2 <= j < i ==> data@[j] != 0x0a,
            forall|j: int| 2 <= j < i ==> is_digit(data@[j]),
            nl == find_byte(data@, 2, 0x0a),
        decreases data@.len() - i,
    {
        if !(0x30 <= data[i] && data[i] <= 0x39) {
            proof {
                lemma_find_byte(data@, 2, 0x0a);
                assert(i < nl || (i < data@.len() && data@[i as int] == 0x0a));
                assert(!is_digit(data@[i as int]));
            }
            return Err(Error::InvalidVersion);
        }
        i += 1;
    }
    // `i` is the newline position (or the end of the input), and every byte
    // of `data[2..i]` is a digit.
    proof {
        lemma_find_byte(data@, 2, 0x0a);
        assert(nl == i);
    }
    if i == data.len() {
        // the input ended before a newline was found
        return Err(Error::InvalidVersion);
    }
    if i == 2 {
        return Err(Error::InvalidVersion);
    }
    let ghost digits = data@.subrange(2, nl);
    let mut minor: u32 = 0;
    let mut k: usize = 2;
    while k < i
        invariant
            2 <= k <= i <= data@.len(),
            nl == i,
            nl == find_byte(data@, 2, 0x0a),
            forall|j: int| 2 <= j < i ==> is_digit(data@[j]),
            minor == dec_value(data@.subrange(2, k as int)),
            digits == data@.subrange(2, nl),
        decreases i - k,
    {
        let d = (data[k] - 0x30) as u64;
        let next = minor as u64 * 10 + d;
        proof {
            lemma_dec_value_step(data@, 2, k as int);
        }
        if next > u32::MAX as u64 {
            proof {
                // The full digit run is at least as large as this prefix,
                // so the minor version does not fit in a `u32`.
                assert(data@.subrange(2, k + 1) =~= digits.subrange(0, k + 1 - 2));
                lemma_dec_value_prefix(digits, k + 1 - 2);
            }
            return Err(Error::InvalidVersion);
        }
        minor = next as u32;
        k += 1;
    }
    proof {
        assert(data@.subrange(2, k as int) =~= digits);
    }
    Ok(DebianBinaryVersion { major: 2, minor })
}

} // verus!
