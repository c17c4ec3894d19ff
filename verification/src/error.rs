//! The errors of the library.

use vstd::prelude::*;

verus! {

/// The versioned entities that a decoder or encoder can be asked to handle.
#[derive(Clone, Copy, Debug, PartialEq, Eq, Structural)]
pub enum Entity {
    Pack,
    FastBin,
    Building,
    Properties,
    Flags,
    PointLight,
    ZonesTemplateList,
    CustomMaterialMeshList,
    PlayableArea,
    ValidLocationFlags,
    CaptureLocationSet,
    PrefabInstanceList,
    Zone,
    CustomMaterialMesh,
    BattlefieldBuildingList,
    PointLightList,
}

/// The primitive type that a field of a record is declared with, without its payload.
#[derive(Clone, Copy, Debug, PartialEq, Eq, Structural)]
pub enum FieldKind {
    Boolean,
    F32,
    F64,
    I16,
    I32,
    I64,
    ColourRGB,
    StringU8,
    StringU16,
    OptionalI16,
    OptionalI32,
    OptionalI64,
    OptionalStringU8,
    OptionalStringU16,
    SequenceU16,
    SequenceU32,
}

/// Everything that can go wrong while decoding or encoding.
///
/// Format errors: `DecodingUnsupportedSignature`, `DecodingUnsupportedVersion`,
/// `EncodingUnsupportedVersion`. Index errors: `PackFileHeaderNotComplete`,
/// `PackFileIndexesNotComplete`, `PackFileSizeIsNotWhatWeExpect`. Size mismatch:
/// `DecodingMismatchSize`. The rest belongs to the primitives and to the record codec.
#[derive(Clone, Copy, Debug, PartialEq, Eq, Structural)]
pub enum RLibError {
    /// The buffer ends before the value does.
    DecodingNotEnoughBytes,
    /// A boolean byte that is neither 0 nor 1.
    DecodingBoolError(u8),
    /// The bytes of a string are not valid UTF-8.
    DecodingStringU8Error,
    /// The code units of a string are not valid UTF-16.
    DecodingStringU16Error,
    /// A text that should hold a number does not.
    DecodingNumberError,
    /// A string is too long for its length prefix or for its padded slot.
    EncodingStringTooLong(usize),
    /// A list has more items than its 32-bit count can tell.
    EncodingTooManyItems(usize),
    /// The signature of a block is not the expected one; holds the eight bytes found, as a
    /// little-endian integer.
    DecodingUnsupportedSignature(u64),
    /// No decode routine is registered for this version of this entity.
    DecodingUnsupportedVersion(Entity, u32),
    /// No encode routine is registered for this version of this entity.
    EncodingUnsupportedVersion(Entity, u32),
    /// Decoding stopped at the first position while the buffer has the second length.
    DecodingMismatchSize(usize, usize),
    /// The buffer is shorter than the header of the pack.
    PackFileHeaderNotComplete,
    /// The buffer is shorter than the header and the indexes of the pack.
    PackFileIndexesNotComplete,
    /// The entries of the index end at the second position while the pack has the first length.
    PackFileSizeIsNotWhatWeExpect(u64, u64),
    /// The pack has counts or sizes that do not fit the format's 32-bit fields.
    PackFileTooBig,
    /// The pack carries a feature that cannot be written back.
    PackFileIsNonEditable,
    /// The data of a file is asked for while the file is still in the backing source.
    FileDataNotInMemory,
    /// No file has the path that was asked for.
    FileNotFound,
    /// A file is to be written compressed and is not, or the other way round.
    FileCompressionPending,
    /// The cell at this row and column (both counted from 1) cannot be decoded as the type
    /// that its field declares.
    TableFieldDecode(u32, u32, FieldKind),
    /// The channels gathered for a colour group do not form a colour.
    DecodingCombinedColour,
    /// A cell's value cannot be written as the type that its field declares; holds the
    /// position of the field in the definition.
    TableWrongFieldType(usize, FieldKind),
    /// A row has the second number of cells where its definition asks for the first.
    TableRowWrongFieldCount(u32, u32),
    /// A table has more rows than its 32-bit count can tell.
    TableTooManyRows,
}

/// The result of an operation of the library.
pub type Result<T> = core::result::Result<T, RLibError>;

impl Entity {
    /// The name under which the entity is reported.
    pub fn name(&self) -> (r: &'static str)
        ensures
            r@ == self.spec_name(),
    {
        match self {
            Entity::Pack => "Pack",
            Entity::FastBin => "FastBin",
            Entity::Building => "Building",
            Entity::Properties => "Properties",
            Entity::Flags => "Flags",
            Entity::PointLight => "PointLight",
            Entity::ZonesTemplateList => "ZonesTemplateList",
            Entity::CustomMaterialMeshList => "CustomMaterialMeshList",
            Entity::PlayableArea => "PlayableArea",
            Entity::ValidLocationFlags => "ValidLocationFlags",
            Entity::CaptureLocationSet => "CaptureLocationSet",
            Entity::PrefabInstanceList => "PrefabInstanceList",
            Entity::Zone => "Zone",
            Entity::CustomMaterialMesh => "CustomMaterialMesh",
            Entity::BattlefieldBuildingList => "BattlefieldBuildingList",
            Entity::PointLightList => "PointLightList",
        }
    }

    /// The characters of the entity's name.
    pub open spec fn spec_name(&self) -> Seq<char> {
        match self {
            Entity::Pack => "Pack"@,
            Entity::FastBin => "FastBin"@,
            Entity::Building => "Building"@,
            Entity::Properties => "Properties"@,
            Entity::Flags => "Flags"@,
            Entity::PointLight => "PointLight"@,
            Entity::ZonesTemplateList => "ZonesTemplateList"@,
            Entity::CustomMaterialMeshList => "CustomMaterialMeshList"@,
            Entity::PlayableArea => "PlayableArea"@,
            Entity::ValidLocationFlags => "ValidLocationFlags"@,
            Entity::CaptureLocationSet => "CaptureLocationSet"@,
            Entity::PrefabInstanceList => "PrefabInstanceList"@,
            Entity::Zone => "Zone"@,
            Entity::CustomMaterialMesh => "CustomMaterialMesh"@,
            Entity::BattlefieldBuildingList => "BattlefieldBuildingList"@,
            Entity::PointLightList => "PointLightList"@,
        }
    }
}

} // verus!
