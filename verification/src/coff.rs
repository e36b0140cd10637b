//! COFF machine types, import classifications, and the PE/COFF constants
//! used when synthesizing import-library object files.

use vstd::prelude::*;

verus! {

/// Machine types for Windows import libraries.
#[derive(Copy, Clone, Debug, PartialEq, Eq, Structural)]
pub enum MachineTypes {
    AMD64,
    ARMNT,
    ARM64,
    ARM64EC,
    ARM64X,
    I386,
}

/// The 16-bit machine value stored in COFF headers.
pub open spec fn spec_machine_value(m: MachineTypes) -> u16 {
    match m {
        MachineTypes::AMD64 => 0x8664,
        MachineTypes::ARMNT => 0x1C4,
        MachineTypes::ARM64 => 0xAA64,
        MachineTypes::ARM64EC => 0xA641,
        MachineTypes::ARM64X => 0xA64E,
        MachineTypes::I386 => 0x14C,
    }
}

impl MachineTypes {
    /// The 16-bit value this machine is encoded as in COFF headers.
    pub fn value(self) -> (r: u16)
        ensures
            r == spec_machine_value(self),
    {
        match self {
            MachineTypes::AMD64 => 0x8664,
            MachineTypes::ARMNT => 0x1C4,
            MachineTypes::ARM64 => 0xAA64,
            MachineTypes::ARM64EC => 0xA641,
            MachineTypes::ARM64X => 0xA64E,
            MachineTypes::I386 => 0x14C,
        }
    }
}

/// The kind of symbol a short import member describes.
#[derive(Copy, Clone, Debug, PartialEq, Eq, Structural)]
pub enum ImportType {
    /// An executable code symbol.
    Code,
    /// A data symbol.
    Data,
    /// A constant value.
    Const,
}

/// The low two bits of a short import header's `name_type` field.
pub open spec fn spec_import_type_value(t: ImportType) -> u16 {
    match t {
        ImportType::Code => 0,
        ImportType::Data => 1,
        ImportType::Const => 2,
    }
}

impl ImportType {
    /// The value this import type is encoded as.
    pub fn value(self) -> (r: u16)
        ensures
            r == spec_import_type_value(self),
    {
        match self {
            ImportType::Code => 0,
            ImportType::Data => 1,
            ImportType::Const => 2,
        }
    }
}

/// How a linker derives the imported name from a short import member.
#[derive(Copy, Clone, Debug, PartialEq, Eq, Structural)]
pub enum ImportNameType {
    /// Import is by ordinal: the ordinal/hint field holds the ordinal.
    Ordinal,
    /// The import name is identical to the public symbol name.
    Name,
    /// The import name is the public symbol name, but skipping the leading
    /// `?`, `@`, or optionally `_`.
    NameNoprefix,
    /// The import name skips the leading `?`, `@`, or optionally `_`, and is
    /// truncated at the first `@`.
    NameUndecorate,
    /// The import name is a separate string in the import library member.
    NameExportas,
}

/// The name-type bits (before shifting) of a short import header.
pub open spec fn spec_name_type_value(t: ImportNameType) -> u16 {
    match t {
        ImportNameType::Ordinal => 0,
        ImportNameType::Name => 1,
        ImportNameType::NameNoprefix => 2,
        ImportNameType::NameUndecorate => 3,
        ImportNameType::NameExportas => 4,
    }
}

impl ImportNameType {
    /// The value this name type is encoded as.
    pub fn value(self) -> (r: u16)
        ensures
            r == spec_name_type_value(self),
    {
        match self {
            ImportNameType::Ordinal => 0,
            ImportNameType::Name => 1,
            ImportNameType::NameNoprefix => 2,
            ImportNameType::NameUndecorate => 3,
            ImportNameType::NameExportas => 4,
        }
    }
}

pub open spec fn spec_is_arm64ec(machine: MachineTypes) -> bool {
    machine == MachineTypes::ARM64EC || machine == MachineTypes::ARM64X
}

/// True for the Windows "Emulation Compatible" ARM64 machines.
pub fn is_arm64ec(machine: MachineTypes) -> (r: bool)
    ensures
        r == spec_is_arm64ec(machine),
{
    machine == MachineTypes::ARM64EC || machine == MachineTypes::ARM64X
}

pub open spec fn spec_is_any_arm64(machine: MachineTypes) -> bool {
    machine == MachineTypes::ARM64 || spec_is_arm64ec(machine)
}

/// True for every ARM64 flavour, classic or EC.
pub fn is_any_arm64(machine: MachineTypes) -> (r: bool)
    ensures
        r == spec_is_any_arm64(machine),
{
    machine == MachineTypes::ARM64 || is_arm64ec(machine)
}

pub open spec fn spec_is_64_bit(machine: MachineTypes) -> bool {
    machine == MachineTypes::AMD64 || spec_is_any_arm64(machine)
}

/// True for machines whose pointers are 8 bytes wide.
pub fn is_64_bit(machine: MachineTypes) -> (r: bool)
    ensures
        r == spec_is_64_bit(machine),
{
    machine == MachineTypes::AMD64 || is_any_arm64(machine)
}

// PE/COFF constants, as the specification defines them.
pub const IMAGE_FILE_32BIT_MACHINE: u16 = 0x0100;

pub const IMAGE_REL_I386_DIR32NB: u16 = 0x0007;

pub const IMAGE_REL_ARM_ADDR32NB: u16 = 0x0002;

pub const IMAGE_REL_ARM64_ADDR32NB: u16 = 0x0002;

pub const IMAGE_REL_AMD64_ADDR32NB: u16 = 0x0003;

pub const IMAGE_SCN_CNT_INITIALIZED_DATA: u32 = 0x0000_0040;

pub const IMAGE_SCN_LNK_INFO: u32 = 0x0000_0200;

pub const IMAGE_SCN_LNK_REMOVE: u32 = 0x0000_0800;

pub const IMAGE_SCN_MEM_READ: u32 = 0x4000_0000;

pub const IMAGE_SCN_MEM_WRITE: u32 = 0x8000_0000;

pub const IMAGE_SCN_ALIGN_2BYTES: u32 = 0x0020_0000;

pub const IMAGE_SCN_ALIGN_4BYTES: u32 = 0x0030_0000;

pub const IMAGE_SCN_ALIGN_8BYTES: u32 = 0x0040_0000;

pub const IMAGE_SYM_CLASS_NULL: u8 = 0x00;

pub const IMAGE_SYM_CLASS_EXTERNAL: u8 = 0x02;

pub const IMAGE_SYM_CLASS_STATIC: u8 = 0x03;

pub const IMAGE_SYM_CLASS_SECTION: u8 = 0x68;

pub const IMAGE_SYM_CLASS_WEAK_EXTERNAL: u8 = 0x69;

pub const IMAGE_WEAK_EXTERN_SEARCH_ALIAS: u8 = 3;

/// The relocation type for a 32-bit image-relative address on `machine`.
pub fn get_img_rel_relocation(machine: MachineTypes) -> (r: u16)
    ensures
        r == spec_img_rel_relocation(machine),
{
    match machine {
        MachineTypes::AMD64 => IMAGE_REL_AMD64_ADDR32NB,
        MachineTypes::ARMNT => IMAGE_REL_ARM_ADDR32NB,
        MachineTypes::ARM64 | MachineTypes::ARM64EC | MachineTypes::ARM64X => {
            IMAGE_REL_ARM64_ADDR32NB
        },
        MachineTypes::I386 => IMAGE_REL_I386_DIR32NB,
    }
}

pub open spec fn spec_img_rel_relocation(machine: MachineTypes) -> u16 {
    match machine {
        MachineTypes::AMD64 => 0x0003,
        MachineTypes::ARMNT => 0x0002,
        MachineTypes::ARM64 | MachineTypes::ARM64EC | MachineTypes::ARM64X => 0x0002,
        MachineTypes::I386 => 0x0007,
    }
}

} // verus!
