//! The archive variants this writer can produce, and their pure predicates.

use vstd::prelude::*;

verus! {

/// Size field of a member header is 10 decimal digits long.
pub const MAX_MEMBER_SIZE: u64 = 9999999999;

/// The archive layout to emit.  The variant selects the framing, the symbol
/// table encoding, the endianness of its offset words, the width of those
/// words, and the treatment of long member names.
#[derive(Copy, Clone, Debug, PartialEq, Eq, Structural)]
pub enum ArchiveKind {
    Gnu,
    Gnu64,
    Bsd,
    Darwin,
    Darwin64,
    Coff,
    AixBig,
}

/// Darwin archives need a symbol table even when empty, and assign synthetic
/// member timestamps.
pub fn is_darwin(kind: ArchiveKind) -> (r: bool)
    ensures
        r == spec_is_darwin(kind),
{
    kind == ArchiveKind::Darwin || kind == ArchiveKind::Darwin64
}

pub open spec fn spec_is_darwin(kind: ArchiveKind) -> bool {
    kind == ArchiveKind::Darwin || kind == ArchiveKind::Darwin64
}

/// The AIX big archive places its member and symbol tables at the end and
/// threads explicit previous/next offsets through every member header.
pub fn is_aix_big_archive(kind: ArchiveKind) -> (r: bool)
    ensures
        r == (kind == ArchiveKind::AixBig),
{
    kind == ArchiveKind::AixBig
}

/// COFF archives carry a second symbol map keyed in lexicographic order.
pub fn is_coff_archive(kind: ArchiveKind) -> (r: bool)
    ensures
        r == (kind == ArchiveKind::Coff),
{
    kind == ArchiveKind::Coff
}

/// BSD-like archives use inline `#1/<len>` member names and little-endian
/// symbol-table words.
pub fn is_bsd_like(kind: ArchiveKind) -> (r: bool)
    ensures
        r == spec_is_bsd_like(kind),
{
    match kind {
        ArchiveKind::Gnu | ArchiveKind::Gnu64 | ArchiveKind::AixBig | ArchiveKind::Coff => false,
        ArchiveKind::Bsd | ArchiveKind::Darwin | ArchiveKind::Darwin64 => true,
    }
}

pub open spec fn spec_is_bsd_like(kind: ArchiveKind) -> bool {
    kind == ArchiveKind::Bsd || kind == ArchiveKind::Darwin || kind == ArchiveKind::Darwin64
}

/// 64-bit variants write 8-byte offset words in their symbol tables.
pub fn is_64bit_kind(kind: ArchiveKind) -> (r: bool)
    ensures
        r == spec_is_64bit_kind(kind),
{
    match kind {
        ArchiveKind::Gnu | ArchiveKind::Bsd | ArchiveKind::Darwin | ArchiveKind::Coff => false,
        ArchiveKind::AixBig | ArchiveKind::Darwin64 | ArchiveKind::Gnu64 => true,
    }
}

pub open spec fn spec_is_64bit_kind(kind: ArchiveKind) -> bool {
    kind == ArchiveKind::AixBig || kind == ArchiveKind::Darwin64 || kind == ArchiveKind::Gnu64
}

} // verus!
