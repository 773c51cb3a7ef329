//! Selection of the decompression transform for a container entry, by
//! sniffing magic bytes in the entry's first kilobyte.

use vstd::prelude::*;

verus! {

/// The closed set of entry encodings the reader understands.
#[derive(Debug, Clone, Copy)]
pub enum EntryFormat {
    Tar,
    Gzip,
    Xz,
    Bzip2,
    Zstd,
    Unknown,
}

/// A little-endian 32-bit word read at offset `i`.
pub open spec fn le32_at(s: Seq<u8>, i: int) -> u32 {
    (s[i] + s[i + 1] * 0x100 + s[i + 2] * 0x1_0000 + s[i + 3] * 0x100_0000) as u32
}

/// Magic check for an uncompressed tar archive: `ustar` at offset 257.
pub open spec fn is_tar_magic(s: Seq<u8>) -> bool {
    s.len() > 261 && s[257] == 0x75 && s[258] == 0x73 && s[259] == 0x74 && s[260] == 0x61 && s[261]
        == 0x72
}

/// Magic check for a gzip stream: `1f 8b 08`.
pub open spec fn is_gz_magic(s: Seq<u8>) -> bool {
    s.len() > 2 && s[0] == 0x1f && s[1] == 0x8b && s[2] == 0x08
}

/// Magic check for a bzip2 stream: `BZh`.
pub open spec fn is_bz2_magic(s: Seq<u8>) -> bool {
    s.len() > 2 && s[0] == 0x42 && s[1] == 0x5a && s[2] == 0x68
}

/// Magic check for an xz stream: `fd 37 7a 58 5a 00`.
pub open spec fn is_xz_magic(s: Seq<u8>) -> bool {
    s.len() > 5 && s[0] == 0xfd && s[1] == 0x37 && s[2] == 0x7a && s[3] == 0x58 && s[4] == 0x5a
        && s[5] == 0x00
}

/// Magic check for a zstd stream: a zstd frame magic (`28 b5 2f fd`),
/// possibly preceded by well-formed skippable frames (magic
/// `0x184d2a50..=0x184d2a5f`, then a little-endian frame length).
pub open spec fn is_zst_magic(s: Seq<u8>) -> bool
    decreases s.len(),
{
    if s.len() > 3 && s[0] == 0x28 && s[1] == 0xb5 && s[2] == 0x2f && s[3] == 0xfd {
        true
    } else if s.len() < 8 {
        false
    } else {
        let magic = le32_at(s, 0);
        if magic & 0xffff_fff0 != 0x184d_2a50 {
            false
        } else {
            let data_len = le32_at(s, 4);
            if s.len() < 8 + data_len {
                false
            } else {
                is_zst_magic(s.skip(8 + data_len as int))
            }
        }
    }
}

/// Relies on `infer::archive::is_tar`: true exactly when `ustar` stands at
/// offset 257.
pub assume_specification[ infer::archive::is_tar ](buf: &[u8]) -> (r: bool)
    ensures
        r == is_tar_magic(buf@),
;

/// Relies on `infer::archive::is_gz`: true exactly on the gzip magic.
pub assume_specification[ infer::archive::is_gz ](buf: &[u8]) -> (r: bool)
    ensures
        r == is_gz_magic(buf@),
;

/// Relies on `infer::archive::is_xz`: true exactly on the xz magic.
pub assume_specification[ infer::archive::is_xz ](buf: &[u8]) -> (r: bool)
    ensures
        r == is_xz_magic(buf@),
;

/// Relies on `infer::archive::is_bz2`: true exactly on the bzip2 magic.
pub assume_specification[ infer::archive::is_bz2 ](buf: &[u8]) -> (r: bool)
    ensures
        r == is_bz2_magic(buf@),
;

/// Relies on `infer::archive::is_zst`: true exactly on a zstd frame magic
/// after any run of well-formed skippable frames.
pub assume_specification[ infer::archive::is_zst ](buf: &[u8]) -> (r: bool)
    ensures
        r == is_zst_magic(buf@),
;

/// The bytes that format detection examines: at most the first kilobyte.
pub open spec fn sniff_prefix(s: Seq<u8>) -> Seq<u8> {
    if s.len() > 1024 {
        s.take(1024)
    } else {
        s
    }
}

/// Which encoding the magic bytes of `s` declare, first match winning in
/// this order: tar, gzip, xz, bzip2, zstd.
pub open spec fn spec_detect(s: Seq<u8>) -> EntryFormat {
    if is_tar_magic(s) {
        EntryFormat::Tar
    } else if is_gz_magic(s) {
        EntryFormat::Gzip
    } else if is_xz_magic(s) {
        EntryFormat::Xz
    } else if is_bz2_magic(s) {
        EntryFormat::Bzip2
    } else if is_zst_magic(s) {
        EntryFormat::Zstd
    } else {
        EntryFormat::Unknown
    }
}

/// Decides which transform applies to an entry from its first kilobyte.
pub(crate) fn detect_format(data: &[u8]) -> (r: EntryFormat)
    ensures
        r == spec_detect(sniff_prefix(data@)),
{
    let plen = if data.len() > 1024 {
        1024
    } else {
        data.len()
    };
    let prefix = vstd::slice::slice_subrange(data, 0, plen);
    proof {
        assert(prefix@ =~= sniff_prefix(data@));
    }
    if infer::archive::is_tar(prefix) {
        EntryFormat::Tar
    } else if infer::archive::is_gz(prefix) {
        EntryFormat::Gzip
    } else if infer::archive::is_xz(prefix) {
        EntryFormat::Xz
    } else if infer::archive::is_bz2(prefix) {
        EntryFormat::Bzip2
    } else if infer::archive::is_zst(prefix) {
        EntryFormat::Zstd
    } else {
        EntryFormat::Unknown
    }
}

} // verus!
