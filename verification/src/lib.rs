//! Writer for static archive files (`.a` / `.lib`) in the seven layouts used
//! by contemporary linkers: GNU, GNU64, BSD, Darwin, Darwin64, COFF and the
//! AIX big archive.  Each emitter's `ensures` equates its output with a
//! specification-level byte sequence, and the top-level writer composes
//! those sequences: its contract equates the whole output byte string with
//! a specification function of the inputs, for every layout.

pub mod alignment;
pub mod archive;
pub mod archive_writer;
pub mod charscan;
pub mod coff;
pub mod mangler;
pub mod math_extras;
pub mod member_header;
pub mod numfmt;
pub mod symmap;
pub mod symtab;

pub use alignment::align_to;
pub use alignment::offset_to_alignment;
pub use archive::ArchiveKind;
pub use archive_writer::ArchiveError;
pub use archive_writer::NewArchiveMember;
pub use coff::ImportNameType;
pub use coff::ImportType;
pub use coff::MachineTypes;
pub use coff::is_64_bit;
pub use coff::is_any_arm64;
pub use coff::is_arm64ec;
pub use archive_writer::compute_member_data;
pub use archive_writer::write_archive;
pub use mangler::get_arm64ec_demangled_function_name;
pub use mangler::get_arm64ec_mangled_function_name;
pub use math_extras::align_to_power_of2;
