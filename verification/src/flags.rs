//! The version word and the two flag words of an archive's header.

use crate::error::{ReadError, ReadFailure};
use vstd::prelude::*;

verus! {

/// The three layouts of an archive that this library reads.
#[derive(Clone, Copy, Debug, PartialEq, Eq, Structural)]
pub enum Version {
    /// Version 103.
    Oblivion,
    /// Version 104.
    Skyrim,
    /// Version 105.
    SkyrimSpecialEdition,
}

impl Version {
    /// The number that the header holds for this version.
    pub open spec fn number(self) -> u32 {
        match self {
            Version::Oblivion => 103,
            Version::Skyrim => 104,
            Version::SkyrimSpecialEdition => 105,
        }
    }

    /// The version that the header's number stands for, if it is one of the
    /// three.
    pub open spec fn of_number(value: u32) -> Option<Version> {
        if value == 103 {
            Some(Version::Oblivion)
        } else if value == 104 {
            Some(Version::Skyrim)
        } else if value == 105 {
            Some(Version::SkyrimSpecialEdition)
        } else {
            None
        }
    }

    /// The number of this version.
    pub fn serialize(self) -> (value: u32)
        ensures
            value == self.number(),
    {
        match self {
            Version::Oblivion => 103,
            Version::Skyrim => 104,
            Version::SkyrimSpecialEdition => 105,
        }
    }

    /// The version of a number, or the error that says which number it
    /// was.
    pub fn deserialize(value: u32) -> (r: Result<Version, ReadError>)
        ensures
            match r {
                Ok(version) => Version::of_number(value) == Some(version),
                Err(e) => Version::of_number(value) is None && e@ == ReadFailure::UnknownVersion(
                    value,
                ),
            },
    {
        match value {
            103 => Ok(Version::Oblivion),
            104 => Ok(Version::Skyrim),
            105 => Ok(Version::SkyrimSpecialEdition),
            other => Err(ReadError::UnknownVersion(other)),
        }
    }
}

/// A version's number is read back as that version.
pub proof fn lemma_version_round_trip(version: Version)
    ensures
        Version::of_number(version.number()) == Some(version),
{
}

/// `mask` if the flag is set, nothing otherwise.
pub open spec fn bit(flag: bool, mask: u32) -> u32 {
    if flag {
        mask
    } else {
        0
    }
}

/// The header's archive flags, one field for each of the ten bits.
#[derive(Clone, Copy, Debug, PartialEq, Eq, Structural)]
pub struct ArchiveFlags {
    pub include_directory_names: bool,
    pub include_file_names: bool,
    pub compressed_archive: bool,
    pub retain_directory_names: bool,
    pub retain_file_names: bool,
    pub retain_file_name_offsets: bool,
    pub xbox360_archive: bool,
    pub retain_strings: bool,
    pub embed_file_names: bool,
    pub xmem_codec: bool,
}

impl ArchiveFlags {
    /// The flag word: each set field contributes its bit.
    pub open spec fn spec_serialize(self) -> u32 {
        bit(self.include_directory_names, 0x01) | bit(self.include_file_names, 0x02) | bit(
            self.compressed_archive,
            0x04,
        ) | bit(self.retain_directory_names, 0x08) | bit(self.retain_file_names, 0x10) | bit(
            self.retain_file_name_offsets,
            0x20,
        ) | bit(self.xbox360_archive, 0x40) | bit(self.retain_strings, 0x80) | bit(
            self.embed_file_names,
            0x100,
        ) | bit(self.xmem_codec, 0x200)
    }

    /// The flags of a word: each field says whether its bit is set.
    pub open spec fn spec_deserialize(value: u32) -> ArchiveFlags {
        ArchiveFlags {
            include_directory_names: value & 0x01 != 0,
            include_file_names: value & 0x02 != 0,
            compressed_archive: value & 0x04 != 0,
            retain_directory_names: value & 0x08 != 0,
            retain_file_names: value & 0x10 != 0,
            retain_file_name_offsets: value & 0x20 != 0,
            xbox360_archive: value & 0x40 != 0,
            retain_strings: value & 0x80 != 0,
            embed_file_names: value & 0x100 != 0,
            xmem_codec: value & 0x200 != 0,
        }
    }

    /// The flag word of these flags.
    pub fn serialize(self) -> (value: u32)
        ensures
            value == self.spec_serialize(),
    {
        let mut res: u32 = if self.include_directory_names { 0x01 } else { 0 };
        res = res | (if self.include_file_names { 0x02 } else { 0 });
        res = res | (if self.compressed_archive { 0x04 } else { 0 });
        res = res | (if self.retain_directory_names { 0x08 } else { 0 });
        res = res | (if self.retain_file_names { 0x10 } else { 0 });
        res = res | (if self.retain_file_name_offsets { 0x20 } else { 0 });
        res = res | (if self.xbox360_archive { 0x40 } else { 0 });
        res = res | (if self.retain_strings { 0x80 } else { 0 });
        res = res | (if self.embed_file_names { 0x100 } else { 0 });
        res = res | (if self.xmem_codec { 0x200 } else { 0 });
        res
    }

    /// The flags of a flag word. Bits above the ten are passed over.
    pub fn deserialize(value: u32) -> (flags: ArchiveFlags)
        ensures
            flags == ArchiveFlags::spec_deserialize(value),
    {
        ArchiveFlags {
            include_directory_names: (value & 0x01) != 0,
            include_file_names: (value & 0x02) != 0,
            compressed_archive: (value & 0x04) != 0,
            retain_directory_names: (value & 0x08) != 0,
            retain_file_names: (value & 0x10) != 0,
            retain_file_name_offsets: (value & 0x20) != 0,
            xbox360_archive: (value & 0x40) != 0,
            retain_strings: (value & 0x80) != 0,
            embed_file_names: (value & 0x100) != 0,
            xmem_codec: (value & 0x200) != 0,
        }
    }
}

proof fn lemma_ten_bits(
    b0: u32,
    b1: u32,
    b2: u32,
    b3: u32,
    b4: u32,
    b5: u32,
    b6: u32,
    b7: u32,
    b8: u32,
    b9: u32,
)
    by (bit_vector)
    requires
        b0 == 0 || b0 == 0x01,
        b1 == 0 || b1 == 0x02,
        b2 == 0 || b2 == 0x04,
        b3 == 0 || b3 == 0x08,
        b4 == 0 || b4 == 0x10,
        b5 == 0 || b5 == 0x20,
        b6 == 0 || b6 == 0x40,
        b7 == 0 || b7 == 0x80,
        b8 == 0 || b8 == 0x100,
        b9 == 0 || b9 == 0x200,
    ensures
        ((b0 | b1 | b2 | b3 | b4 | b5 | b6 | b7 | b8 | b9) & 0x01 != 0) == (b0 != 0),
        ((b0 | b1 | b2 | b3 | b4 | b5 | b6 | b7 | b8 | b9) & 0x02 != 0) == (b1 != 0),
        ((b0 | b1 | b2 | b3 | b4 | b5 | b6 | b7 | b8 | b9) & 0x04 != 0) == (b2 != 0),
        ((b0 | b1 | b2 | b3 | b4 | b5 | b6 | b7 | b8 | b9) & 0x08 != 0) == (b3 != 0),
        ((b0 | b1 | b2 | b3 | b4 | b5 | b6 | b7 | b8 | b9) & 0x10 != 0) == (b4 != 0),
        ((b0 | b1 | b2 | b3 | b4 | b5 | b6 | b7 | b8 | b9) & 0x20 != 0) == (b5 != 0),
        ((b0 | b1 | b2 | b3 | b4 | b5 | b6 | b7 | b8 | b9) & 0x40 != 0) == (b6 != 0),
        ((b0 | b1 | b2 | b3 | b4 | b5 | b6 | b7 | b8 | b9) & 0x80 != 0) == (b7 != 0),
        ((b0 | b1 | b2 | b3 | b4 | b5 | b6 | b7 | b8 | b9) & 0x100 != 0) == (b8 != 0),
        ((b0 | b1 | b2 | b3 | b4 | b5 | b6 | b7 | b8 | b9) & 0x200 != 0) == (b9 != 0),
        (b0 | b1 | b2 | b3 | b4 | b5 | b6 | b7 | b8 | b9) <= 0x3FF,
        b9 == 0 ==> (b0 | b1 | b2 | b3 | b4 | b5 | b6 | b7 | b8 | b9) <= 0x1FF,
{
}

proof fn lemma_word_of_ten_bits(value: u32)
    by (bit_vector)
    ensures
        (if value & 0x01 != 0 { 0x01u32 } else { 0 }) | (if value & 0x02 != 0 { 0x02u32 } else { 0 })
            | (if value & 0x04 != 0 { 0x04u32 } else { 0 }) | (if value & 0x08 != 0 { 0x08u32 } else {
            0
        }) | (if value & 0x10 != 0 { 0x10u32 } else { 0 }) | (if value & 0x20 != 0 { 0x20u32 } else {
            0
        }) | (if value & 0x40 != 0 { 0x40u32 } else { 0 }) | (if value & 0x80 != 0 { 0x80u32 } else {
            0
        }) | (if value & 0x100 != 0 { 0x100u32 } else { 0 }) | (if value & 0x200 != 0 {
            0x200u32
        } else {
            0
        }) == value & 0x3FF,
        (if value & 0x01 != 0 { 0x01u32 } else { 0 }) | (if value & 0x02 != 0 { 0x02u32 } else { 0 })
            | (if value & 0x04 != 0 { 0x04u32 } else { 0 }) | (if value & 0x08 != 0 { 0x08u32 } else {
            0
        }) | (if value & 0x10 != 0 { 0x10u32 } else { 0 }) | (if value & 0x20 != 0 { 0x20u32 } else {
            0
        }) | (if value & 0x40 != 0 { 0x40u32 } else { 0 }) | (if value & 0x80 != 0 { 0x80u32 } else {
            0
        }) | (if value & 0x100 != 0 { 0x100u32 } else { 0 }) == value & 0x1FF,
{
}

/// The flags that are read back from a flag word are the flags that wrote
/// it.
pub proof fn lemma_archive_flags_round_trip(flags: ArchiveFlags)
    ensures
        ArchiveFlags::spec_deserialize(flags.spec_serialize()) == flags,
        flags.spec_serialize() <= 0x3FF,
{
    lemma_ten_bits(
        bit(flags.include_directory_names, 0x01),
        bit(flags.include_file_names, 0x02),
        bit(flags.compressed_archive, 0x04),
        bit(flags.retain_directory_names, 0x08),
        bit(flags.retain_file_names, 0x10),
        bit(flags.retain_file_name_offsets, 0x20),
        bit(flags.xbox360_archive, 0x40),
        bit(flags.retain_strings, 0x80),
        bit(flags.embed_file_names, 0x100),
        bit(flags.xmem_codec, 0x200),
    );
}

/// Writing the flags of a word gives back its ten low bits.
pub proof fn lemma_archive_flags_of_word(value: u32)
    ensures
        ArchiveFlags::spec_deserialize(value).spec_serialize() == value & 0x3FF,
{
    lemma_word_of_ten_bits(value);
}

/// The header's file flags: the kinds of content that the archive holds.
#[derive(Clone, Copy, Debug, PartialEq, Eq, Structural)]
pub struct FileFlags {
    pub meshes: bool,
    pub textures: bool,
    pub menus: bool,
    pub sounds: bool,
    pub voices: bool,
    pub shaders: bool,
    pub trees: bool,
    pub fonts: bool,
    pub miscellaneous: bool,
}

impl FileFlags {
    /// The flag word: each set field contributes its bit.
    pub open spec fn spec_serialize(self) -> u32 {
        bit(self.meshes, 0x01) | bit(self.textures, 0x02) | bit(self.menus, 0x04) | bit(
            self.sounds,
            0x08,
        ) | bit(self.voices, 0x10) | bit(self.shaders, 0x20) | bit(self.trees, 0x40) | bit(
            self.fonts,
            0x80,
        ) | bit(self.miscellaneous, 0x100)
    }

    /// The flags of a word: each field says whether its bit is set.
    pub open spec fn spec_deserialize(value: u32) -> FileFlags {
        FileFlags {
            meshes: value & 0x01 != 0,
            textures: value & 0x02 != 0,
            menus: value & 0x04 != 0,
            sounds: value & 0x08 != 0,
            voices: value & 0x10 != 0,
            shaders: value & 0x20 != 0,
            trees: value & 0x40 != 0,
            fonts: value & 0x80 != 0,
            miscellaneous: value & 0x100 != 0,
        }
    }

    /// The flag word of these flags.
    pub fn serialize(self) -> (value: u32)
        ensures
            value == self.spec_serialize(),
    {
        let mut res: u32 = if self.meshes { 0x01 } else { 0 };
        res = res | (if self.textures { 0x02 } else { 0 });
        res = res | (if self.menus { 0x04 } else { 0 });
        res = res | (if self.sounds { 0x08 } else { 0 });
        res = res | (if self.voices { 0x10 } else { 0 });
        res = res | (if self.shaders { 0x20 } else { 0 });
        res = res | (if self.trees { 0x40 } else { 0 });
        res = res | (if self.fonts { 0x80 } else { 0 });
        res = res | (if self.miscellaneous { 0x100 } else { 0 });
        res
    }

    /// The flags of a flag word. Bits above the nine are passed over.
    pub fn deserialize(value: u32) -> (flags: FileFlags)
        ensures
            flags == FileFlags::spec_deserialize(value),
    {
        FileFlags {
            meshes: (value & 0x01) != 0,
            textures: (value & 0x02) != 0,
            menus: (value & 0x04) != 0,
            sounds: (value & 0x08) != 0,
            voices: (value & 0x10) != 0,
            shaders: (value & 0x20) != 0,
            trees: (value & 0x40) != 0,
            fonts: (value & 0x80) != 0,
            miscellaneous: (value & 0x100) != 0,
        }
    }
}

proof fn lemma_or_nothing(word: u32)
    by (bit_vector)
    ensures
        word | 0 == word,
{
}

/// The flags that are read back from a flag word are the flags that wrote
/// it.
pub proof fn lemma_file_flags_round_trip(flags: FileFlags)
    ensures
        FileFlags::spec_deserialize(flags.spec_serialize()) == flags,
        flags.spec_serialize() <= 0x1FF,
{
    lemma_ten_bits(
        bit(flags.meshes, 0x01),
        bit(flags.textures, 0x02),
        bit(flags.menus, 0x04),
        bit(flags.sounds, 0x08),
        bit(flags.voices, 0x10),
        bit(flags.shaders, 0x20),
        bit(flags.trees, 0x40),
        bit(flags.fonts, 0x80),
        bit(flags.miscellaneous, 0x100),
        0,
    );
    lemma_or_nothing(flags.spec_serialize());
}

/// Writing the flags of a word gives back its nine low bits.
pub proof fn lemma_file_flags_of_word(value: u32)
    ensures
        FileFlags::spec_deserialize(value).spec_serialize() == value & 0x1FF,
{
    lemma_word_of_ten_bits(value);
}

} // verus!
