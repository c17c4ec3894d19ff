//! The pack container: an archive of files with a header, a list of dependencies and an
//! index.

use vstd::prelude::*;

use crate::binary::{le_u32, read_u32, zeros};
use crate::error::{Entity, RLibError, Result};
use crate::pack::file_type::{classify, FileType};
use crate::pack::index::{contains_type, types_view};
use crate::pack::pfh0::{spec_read_pfh0, spec_write_pfh0};
use crate::pack::pfh6::{spec_read_pfh6, spec_save_pfh6, SaveOptions};
use crate::text::{chars_of, has_prefix, lowercase_of, starts_with, str_eq, string_from_chars};

pub mod crypto;
pub mod file_type;
pub mod index;
pub mod laws;
pub mod order;
pub mod pfh0;
pub mod pfh6;
pub mod save;

verus! {

/// The path of the entry that carries the notes of a pack while the pack is written.
pub const RESERVED_NAME_NOTES: &'static str = "notes.rpfm_reserved";

/// The path of the entry that carries the settings of a pack while the pack is written.
pub const RESERVED_NAME_SETTINGS: &'static str = "settings.rpfm_reserved";

/// The header has a second, fixed-size part behind the first.
pub const HAS_EXTENDED_HEADER: u32 = 0x100;

/// The sizes, timestamps and paths of the index are encrypted.
pub const HAS_ENCRYPTED_INDEX: u32 = 0x80;

/// Each entry of the index carries a timestamp.
pub const HAS_INDEX_WITH_TIMESTAMPS: u32 = 0x40;

/// The data of the files is encrypted.
pub const HAS_ENCRYPTED_DATA: u32 = 0x10;

/// The bits of the header's flags word that hold the kind of the pack.
pub const FILE_TYPE_MASK: u32 = 0xF;

/// The format versions of a pack.
#[derive(Clone, Copy, Debug, PartialEq, Eq, Structural)]
pub enum PFHVersion {
    PFH0,
    PFH2,
    PFH3,
    PFH4,
    PFH5,
    PFH6,
}

/// What a pack is for, which decides the order in which the game loads it.
#[derive(Clone, Copy, Debug, PartialEq, Eq, Structural)]
pub enum PFHFileType {
    Boot,
    Release,
    Patch,
    Mod,
    Movie,
    Other(u32),
}

/// The optional features of a pack: the flags word of its header without the kind.
#[derive(Clone, Copy, Debug, PartialEq, Eq, Structural)]
pub struct PFHFlags {
    pub bits: u32,
}

/// Where the bytes of a file are: still in the backing source, or in memory.
#[derive(Debug)]
pub enum FileData {
    OnDisk { start: u64, size: u32, is_compressed: bool, is_encrypted: Option<PFHVersion> },
    OnMemory { data: Vec<u8>, is_compressed: bool, is_encrypted: Option<PFHVersion> },
}

/// One file of a pack.
#[derive(Debug)]
pub struct RFile {
    /// The path inside the pack, with `/` between its parts.
    pub path: String,
    pub timestamp: u32,
    /// Whether the file is to be compressed when the pack is written.
    pub should_be_compressed: bool,
    /// Whether the file is to be encrypted when the pack is written.
    pub should_be_encrypted: Option<PFHVersion>,
    pub data: FileData,
}

/// The fixed part of a pack.
#[derive(Debug)]
pub struct PackHeader {
    pub pfh_version: PFHVersion,
    pub pfh_file_type: PFHFileType,
    pub bitmask: PFHFlags,
    pub timestamp: u32,
    pub game_version: u32,
    pub build_number: u32,
    pub authoring_tool: String,
    /// The end of the header, which is carried through unchanged.
    pub extra_subheader_data: Vec<u8>,
}

/// A pack: header, dependencies, files, and the notes and settings kept with it.
#[derive(Debug)]
pub struct Pack {
    pub header: PackHeader,
    /// The names of the packs that are to be loaded before this one.
    pub dependencies: Vec<String>,
    /// The files. No two have the same path.
    pub files: Vec<RFile>,
    pub notes: Option<String>,
    /// The settings of the pack, as the text that is stored in it.
    pub settings: Vec<u8>,
}

/// What a `FileData` holds.
pub enum FileDataView {
    OnDisk { start: u64, size: u32, is_compressed: bool, is_encrypted: Option<PFHVersion> },
    OnMemory { data: Seq<u8>, is_compressed: bool, is_encrypted: Option<PFHVersion> },
}

/// What an `RFile` holds.
pub struct RFileView {
    pub path: Seq<char>,
    pub timestamp: u32,
    pub should_be_compressed: bool,
    pub should_be_encrypted: Option<PFHVersion>,
    pub data: FileDataView,
}

/// What a `PackHeader` holds.
pub struct PackHeaderView {
    pub pfh_version: PFHVersion,
    pub pfh_file_type: PFHFileType,
    pub bitmask: PFHFlags,
    pub timestamp: u32,
    pub game_version: u32,
    pub build_number: u32,
    pub authoring_tool: Seq<char>,
    pub extra_subheader_data: Seq<u8>,
}

/// What a `Pack` holds.
pub struct PackView {
    pub header: PackHeaderView,
    pub dependencies: Seq<Seq<char>>,
    pub files: Seq<RFileView>,
    pub notes: Option<Seq<char>>,
    pub settings: Seq<u8>,
}

impl View for FileData {
    type V = FileDataView;

    open spec fn view(&self) -> FileDataView {
        match *self {
            FileData::OnDisk { start, size, is_compressed, is_encrypted } => FileDataView::OnDisk {
                start,
                size,
                is_compressed,
                is_encrypted,
            },
            FileData::OnMemory { data, is_compressed, is_encrypted } => FileDataView::OnMemory {
                data: data@,
                is_compressed,
                is_encrypted,
            },
        }
    }
}

impl View for RFile {
    type V = RFileView;

    open spec fn view(&self) -> RFileView {
        RFileView {
            path: self.path@,
            timestamp: self.timestamp,
            should_be_compressed: self.should_be_compressed,
            should_be_encrypted: self.should_be_encrypted,
            data: self.data@,
        }
    }
}

impl View for PackHeader {
    type V = PackHeaderView;

    open spec fn view(&self) -> PackHeaderView {
        PackHeaderView {
            pfh_version: self.pfh_version,
            pfh_file_type: self.pfh_file_type,
            bitmask: self.bitmask,
            timestamp: self.timestamp,
            game_version: self.game_version,
            build_number: self.build_number,
            authoring_tool: self.authoring_tool@,
            extra_subheader_data: self.extra_subheader_data@,
        }
    }
}

/// The texts of a list of strings.
pub open spec fn texts(strings: Seq<String>) -> Seq<Seq<char>> {
    Seq::new(strings.len(), |i: int| strings[i]@)
}

/// What a list of files holds.
pub open spec fn file_views(files: Seq<RFile>) -> Seq<RFileView> {
    Seq::new(files.len(), |i: int| files[i]@)
}

impl View for Pack {
    type V = PackView;

    open spec fn view(&self) -> PackView {
        PackView {
            header: self.header@,
            dependencies: texts(self.dependencies@),
            files: file_views(self.files@),
            notes: match self.notes {
                Some(n) => Some(n@),
                None => None,
            },
            settings: self.settings@,
        }
    }
}

/// True when no two files have the same path.
pub open spec fn unique_paths(files: Seq<RFileView>) -> bool {
    forall|i: int, j: int|
        0 <= i < files.len() && 0 <= j < files.len() && i != j ==> (#[trigger] files[i]).path != (
        #[trigger] files[j]).path
}

/// The position of the first file at or behind `from` with the given path, or the number
/// of files.
pub open spec fn position_from(files: Seq<RFileView>, path: Seq<char>, from: int) -> int
    decreases files.len() - from,
{
    if from < 0 || from >= files.len() {
        files.len() as int
    } else if files[from].path == path {
        from
    } else {
        position_from(files, path, from + 1)
    }
}

/// The position of the first file with the given path, or the number of files.
pub open spec fn position_of(files: Seq<RFileView>, path: Seq<char>) -> int {
    position_from(files, path, 0)
}

/// The files after `file` was put in: in the place of the file with the same path, or at
/// the end where there is none.
pub open spec fn inserted(files: Seq<RFileView>, file: RFileView) -> Seq<RFileView> {
    let i = position_of(files, file.path);
    if i < files.len() {
        files.update(i, file)
    } else {
        files.push(file)
    }
}

/// The files without the first one that has the given path.
pub open spec fn removed(files: Seq<RFileView>, path: Seq<char>) -> Seq<RFileView> {
    let i = position_of(files, path);
    if i < files.len() {
        files.remove(i)
    } else {
        files
    }
}

impl PFHVersion {
    /// The number of the version.
    pub open spec fn spec_number(&self) -> u32 {
        match self {
            PFHVersion::PFH0 => 0,
            PFHVersion::PFH2 => 2,
            PFHVersion::PFH3 => 3,
            PFHVersion::PFH4 => 4,
            PFHVersion::PFH5 => 5,
            PFHVersion::PFH6 => 6,
        }
    }

    /// The version with the given number.
    pub open spec fn spec_from_number(n: u32) -> Option<PFHVersion> {
        if n == 0 {
            Some(PFHVersion::PFH0)
        } else if n == 2 {
            Some(PFHVersion::PFH2)
        } else if n == 3 {
            Some(PFHVersion::PFH3)
        } else if n == 4 {
            Some(PFHVersion::PFH4)
        } else if n == 5 {
            Some(PFHVersion::PFH5)
        } else if n == 6 {
            Some(PFHVersion::PFH6)
        } else {
            None
        }
    }

    /// The number of the version.
    pub fn number(&self) -> (r: u32)
        ensures
            r == self.spec_number(),
    {
        match self {
            PFHVersion::PFH0 => 0,
            PFHVersion::PFH2 => 2,
            PFHVersion::PFH3 => 3,
            PFHVersion::PFH4 => 4,
            PFHVersion::PFH5 => 5,
            PFHVersion::PFH6 => 6,
        }
    }

    /// The version with the given number.
    pub fn from_number(n: u32) -> (r: Option<PFHVersion>)
        ensures
            r == PFHVersion::spec_from_number(n),
    {
        if n == 0 {
            Some(PFHVersion::PFH0)
        } else if n == 2 {
            Some(PFHVersion::PFH2)
        } else if n == 3 {
            Some(PFHVersion::PFH3)
        } else if n == 4 {
            Some(PFHVersion::PFH4)
        } else if n == 5 {
            Some(PFHVersion::PFH5)
        } else if n == 6 {
            Some(PFHVersion::PFH6)
        } else {
            None
        }
    }

    /// The four bytes that a pack of this version starts with: `PFH` and the digit.
    pub open spec fn spec_preamble(&self) -> Seq<u8> {
        seq![0x50u8, 0x46u8, 0x48u8, (0x30 + self.spec_number()) as u8]
    }
}

impl PFHFileType {
    /// The number that stands for the kind in the header.
    pub open spec fn spec_value(&self) -> u32 {
        match *self {
            PFHFileType::Boot => 0,
            PFHFileType::Release => 1,
            PFHFileType::Patch => 2,
            PFHFileType::Mod => 3,
            PFHFileType::Movie => 4,
            PFHFileType::Other(v) => v,
        }
    }

    /// The kind that a number stands for.
    pub open spec fn spec_from_value(v: u32) -> PFHFileType {
        if v == 0 {
            PFHFileType::Boot
        } else if v == 1 {
            PFHFileType::Release
        } else if v == 2 {
            PFHFileType::Patch
        } else if v == 3 {
            PFHFileType::Mod
        } else if v == 4 {
            PFHFileType::Movie
        } else {
            PFHFileType::Other(v)
        }
    }

    /// The number that stands for the kind in the header.
    pub fn value(&self) -> (r: u32)
        ensures
            r == self.spec_value(),
    {
        match *self {
            PFHFileType::Boot => 0,
            PFHFileType::Release => 1,
            PFHFileType::Patch => 2,
            PFHFileType::Mod => 3,
            PFHFileType::Movie => 4,
            PFHFileType::Other(v) => v,
        }
    }

    /// The kind that a number stands for.
    pub fn from_value(v: u32) -> (r: PFHFileType)
        ensures
            r == PFHFileType::spec_from_value(v),
    {
        if v == 0 {
            PFHFileType::Boot
        } else if v == 1 {
            PFHFileType::Release
        } else if v == 2 {
            PFHFileType::Patch
        } else if v == 3 {
            PFHFileType::Mod
        } else if v == 4 {
            PFHFileType::Movie
        } else {
            PFHFileType::Other(v)
        }
    }
}

impl PFHFlags {
    /// True when every bit of `flag` is set.
    pub open spec fn spec_contains(&self, flag: u32) -> bool {
        self.bits & flag == flag
    }

    /// Tells whether every bit of `flag` is set.
    pub fn contains(&self, flag: u32) -> (r: bool)
        ensures
            r == self.spec_contains(flag),
    {
        self.bits & flag == flag
    }
}

/// Where `position_from` points, there is the path, and nowhere before.
pub proof fn lemma_position_from(files: Seq<RFileView>, path: Seq<char>, from: int)
    requires
        0 <= from <= files.len(),
    ensures
        from <= position_from(files, path, from) <= files.len(),
        position_from(files, path, from) < files.len() ==> files[position_from(
            files,
            path,
            from,
        )].path == path,
        forall|k: int| from <= k < position_from(files, path, from) ==> (#[trigger] files[k]).path != path,
    decreases files.len() - from,
{
    if from < files.len() && files[from].path != path {
        lemma_position_from(files, path, from + 1);
    }
}

/// Putting a file in keeps the paths apart.
pub proof fn lemma_inserted_unique(files: Seq<RFileView>, file: RFileView)
    requires
        unique_paths(files),
    ensures
        unique_paths(inserted(files, file)),
{
    lemma_position_from(files, file.path, 0);
    let i = position_of(files, file.path);
    let after = inserted(files, file);
    assert forall|a: int, b: int| 0 <= a < after.len() && 0 <= b < after.len() && a != b implies (
    #[trigger] after[a]).path != (#[trigger] after[b]).path by {
        if i < files.len() {
            if a != i && b != i {
                assert(files[a].path != files[b].path);
            } else if a == i {
                assert(files[i].path != files[b].path);
            } else {
                assert(files[a].path != files[i].path);
            }
        } else {
            if a < files.len() && b < files.len() {
                assert(files[a].path != files[b].path);
            } else if a == files.len() {
                assert(files[b].path != file.path);
            } else {
                assert(files[a].path != file.path);
            }
        }
    }
}

/// Taking a file out keeps the paths apart.
pub proof fn lemma_removed_unique(files: Seq<RFileView>, path: Seq<char>)
    requires
        unique_paths(files),
    ensures
        unique_paths(removed(files, path)),
{
    lemma_position_from(files, path, 0);
    let i = position_of(files, path);
    let after = removed(files, path);
    assert forall|a: int, b: int| 0 <= a < after.len() && 0 <= b < after.len() && a != b implies (
    #[trigger] after[a]).path != (#[trigger] after[b]).path by {
        if i < files.len() {
            let fa = if a < i {
                a
            } else {
                a + 1
            };
            let fb = if b < i {
                b
            } else {
                b + 1
            };
            assert(after[a] == files[fa] && after[b] == files[fb]);
            assert(files[fa].path != files[fb].path);
        }
    }
}

/// Files that have the paths of files whose paths are apart have their paths apart.
pub proof fn lemma_same_paths_unique(files: Seq<RFileView>, after: Seq<RFileView>)
    requires
        unique_paths(files),
        after.len() == files.len(),
        forall|i: int| 0 <= i < files.len() ==> (#[trigger] after[i]).path == files[i].path,
    ensures
        unique_paths(after),
{
    assert forall|a: int, b: int| 0 <= a < after.len() && 0 <= b < after.len() && a != b implies (
    #[trigger] after[a]).path != (#[trigger] after[b]).path by {
        assert(files[a].path != files[b].path);
    }
}

/// In a pack that was read no two files have the same path: of two records of the index
/// with one path the later one takes the place of the earlier.
pub proof fn lemma_read_unique(data: Seq<u8>, types: Option<Seq<FileType>>, lazy: bool)
    requires
        spec_read(data, types, lazy) is Ok,
    ensures
        unique_paths(spec_read(data, types, lazy)->Ok_0.files),
{
    let word = le_u32(data, 4);
    let file_type = PFHFileType::spec_from_value(word & FILE_TYPE_MASK);
    let flags = PFHFlags { bits: word & !FILE_TYPE_MASK };
    if preamble_version(data)->Ok_0 == 6 {
        crate::pack::pfh6::lemma_read_pfh6_unique(
            data,
            new_header(PFHVersion::PFH6, file_type, flags),
            types,
            lazy,
        );
    } else {
        let before = new_header(PFHVersion::PFH0, file_type, flags);
        crate::pack::pfh0::lemma_read_pfh0_unique(data, before);
        let files = spec_read_pfh0(data, before)->Ok_0.0.files;
        if !lazy {
            lemma_same_paths_unique(files, crate::pack::pfh6::all_materialized(files, data));
        }
    }
}

/// The position of the first file at or behind `from` with the given path.
pub fn find_file(files: &Vec<RFile>, path: &str) -> (r: usize)
    ensures
        r == position_of(file_views(files@), path@),
        r <= files@.len(),
{
    let n: usize = files.len();
    let mut i: usize = 0;
    while i < n
        invariant
            i <= n == files@.len(),
            position_of(file_views(files@), path@) == position_from(
                file_views(files@),
                path@,
                i as int,
            ),
        decreases n - i,
    {
        if str_eq(files[i].path.as_str(), path) {
            return i;
        }
        i = i + 1;
    }
    n
}

/// Puts a file in: in the place of the file with the same path, or at the end where there
/// is none.
pub fn insert_file(files: &mut Vec<RFile>, file: RFile)
    ensures
        file_views(final(files)@) == inserted(file_views(old(files)@), file@),
{
    let i: usize = find_file(files, file.path.as_str());
    if i < files.len() {
        files.set(i, file);
        assert(file_views(files@) =~= inserted(file_views(old(files)@), file@));
    } else {
        files.push(file);
        assert(file_views(files@) =~= inserted(file_views(old(files)@), file@));
    }
}

/// The name that new packs carry as their authoring tool.
pub const AUTHORING_TOOL_RPFM: &'static str = "RPFM";

/// The version that the first four bytes of a pack name: the digit behind `PFH`. `Err`
/// holds the four bytes as a number where they are no such name.
pub open spec fn preamble_version(data: Seq<u8>) -> core::result::Result<u32, RLibError> {
    if data[0] == 0x50 && data[1] == 0x46 && data[2] == 0x48 && 0x30 <= data[3] <= 0x39 {
        Ok((data[3] - 0x30) as u32)
    } else {
        Err(RLibError::DecodingUnsupportedSignature(le_u32(data, 0) as u64))
    }
}

/// The header of a new pack of the given version and kind, with the given flags.
pub open spec fn new_header(
    version: PFHVersion,
    file_type: PFHFileType,
    flags: PFHFlags,
) -> PackHeaderView {
    PackHeaderView {
        pfh_version: version,
        pfh_file_type: file_type,
        bitmask: flags,
        timestamp: 0,
        game_version: 0,
        build_number: 0,
        authoring_tool: AUTHORING_TOOL_RPFM@,
        extra_subheader_data: zeros(256),
    }
}

/// A new pack with the given header and nothing in it.
pub open spec fn empty_pack(header: PackHeaderView) -> PackView {
    PackView {
        header,
        dependencies: Seq::empty(),
        files: Seq::empty(),
        notes: None,
        settings: Seq::empty(),
    }
}

/// The pack that the bytes of a pack stand for.
///
/// The first four bytes name the version, the next four hold the kind of the pack in their
/// lowest four bits and the flags in the rest. Versions 0 and 6 can be read; any other
/// version is refused by its number. The data of the files must account for the pack to its
/// last byte.
pub open spec fn spec_read(
    data: Seq<u8>,
    types: Option<Seq<FileType>>,
    lazy: bool,
) -> core::result::Result<
    PackView,
    RLibError,
> {
    if data.len() < 8 {
        Err(RLibError::PackFileHeaderNotComplete)
    } else {
        match preamble_version(data) {
            Err(e) => Err(e),
            Ok(number) => {
                let word = le_u32(data, 4);
                let file_type = PFHFileType::spec_from_value(word & FILE_TYPE_MASK);
                let flags = PFHFlags { bits: word & !FILE_TYPE_MASK };
                if number == 6 {
                    spec_read_pfh6(data, new_header(PFHVersion::PFH6, file_type, flags), types, lazy)
                } else if number == 0 {
                    match spec_read_pfh0(data, new_header(PFHVersion::PFH0, file_type, flags)) {
                        Err(e) => Err(e),
                        Ok((pack, end)) => if end != data.len() {
                            Err(RLibError::PackFileSizeIsNotWhatWeExpect(data.len() as u64, end))
                        } else {
                            Ok(
                                PackView {
                                    files: if lazy {
                                        pack.files
                                    } else {
                                        crate::pack::pfh6::all_materialized(pack.files, data)
                                    },
                                    ..pack
                                },
                            )
                        },
                    }
                } else {
                    Err(RLibError::DecodingUnsupportedVersion(Entity::Pack, number))
                }
            },
        }
    }
}

/// The bytes that a pack is written as, and its header afterwards. Packs of the versions 0
/// and 6 can be written; any other version is refused by its number.
pub open spec fn spec_save(pack: PackView, options: SaveOptions) -> core::result::Result<
    (Seq<u8>, PackHeaderView),
    RLibError,
> {
    match pack.header.pfh_version {
        PFHVersion::PFH6 => spec_save_pfh6(pack, options),
        PFHVersion::PFH0 => match spec_write_pfh0(pack) {
            Ok(bytes) => Ok((bytes, pack.header)),
            Err(e) => Err(e),
        },
        other => Err(RLibError::EncodingUnsupportedVersion(Entity::Pack, other.spec_number())),
    }
}

/// The paths of the files from position `i` on whose kind is among `types` and whose path
/// starts with `prefix`, behind the paths `found`.
pub open spec fn matching_paths(
    files: Seq<RFileView>,
    types: Seq<FileType>,
    prefix: Seq<char>,
    i: int,
    found: Seq<Seq<char>>,
) -> Seq<Seq<char>>
    decreases files.len() - i,
{
    if i < 0 || i >= files.len() {
        found
    } else if types.contains(classify(lowercase_of(files[i].path))) && has_prefix(
        files[i].path,
        prefix,
    ) {
        matching_paths(files, types, prefix, i + 1, found.push(files[i].path))
    } else {
        matching_paths(files, types, prefix, i + 1, found)
    }
}

impl RFile {
    /// A file in memory with the given path and data, neither compressed nor encrypted.
    pub fn new_from_vec(path: &str, data: Vec<u8>) -> (r: RFile)
        ensures
            r@ == (RFileView {
                path: path@,
                timestamp: 0,
                should_be_compressed: false,
                should_be_encrypted: None,
                data: FileDataView::OnMemory { data: data@, is_compressed: false, is_encrypted: None },
            }),
    {
        RFile {
            path: string_from_chars(chars_of(path).as_slice()),
            timestamp: 0,
            should_be_compressed: false,
            should_be_encrypted: None,
            data: FileData::OnMemory { data, is_compressed: false, is_encrypted: None },
        }
    }

    /// The data of the file as it is stored, where the file is in memory.
    pub fn cached(&self) -> (r: Result<&Vec<u8>>)
        ensures
            match self.data@ {
                FileDataView::OnMemory { data, .. } => r is Ok && r->Ok_0@ == data,
                FileDataView::OnDisk { .. } => r == Err::<&Vec<u8>, RLibError>(
                    RLibError::FileDataNotInMemory,
                ),
            },
    {
        match &self.data {
            FileData::OnMemory { data, .. } => Ok(data),
            FileData::OnDisk { .. } => Err(RLibError::FileDataNotInMemory),
        }
    }

    /// The kind of the file.
    pub fn file_type(&self) -> (r: FileType)
        ensures
            r == classify(lowercase_of(self.path@)),
    {
        FileType::from_path(self.path.as_str())
    }
}

impl Pack {
    /// A new pack of the given version: a mod with no flags, no files and no dependencies.
    pub fn new(version: PFHVersion) -> (r: Pack)
        ensures
            r@ == empty_pack(new_header(version, PFHFileType::Mod, PFHFlags { bits: 0 })),
    {
        Pack::with_header(version, PFHFileType::Mod, PFHFlags { bits: 0 })
    }

    /// A new pack of the given version and kind, with the given flags.
    pub fn with_header(version: PFHVersion, file_type: PFHFileType, flags: PFHFlags) -> (r: Pack)
        ensures
            r@ == empty_pack(new_header(version, file_type, flags)),
    {
        let mut extra: Vec<u8> = Vec::new();
        let mut i: usize = 0;
        while i < 256
            invariant
                i <= 256,
                extra@ == zeros(i as int),
            decreases 256 - i,
        {
            extra.push(0);
            i = i + 1;
            assert(extra@ =~= zeros(i as int));
        }
        let pack = Pack {
            header: PackHeader {
                pfh_version: version,
                pfh_file_type: file_type,
                bitmask: flags,
                timestamp: 0,
                game_version: 0,
                build_number: 0,
                authoring_tool: string_from_chars(chars_of(AUTHORING_TOOL_RPFM).as_slice()),
                extra_subheader_data: extra,
            },
            dependencies: Vec::new(),
            files: Vec::new(),
            notes: None,
            settings: Vec::new(),
        };
        assert(pack@.dependencies =~= Seq::<Seq<char>>::empty());
        assert(pack@.files =~= Seq::<RFileView>::empty());
        pack
    }

    /// Reads a pack from its bytes. Only files of the kinds in `types_to_load` are kept,
    /// where kinds are given; a pack of version 0 keeps all its files. With
    /// `use_lazy_loading` the files stay in the backing source; without it their data is
    /// fetched.
    #[verifier::rlimit(40)]
    pub fn read(data: &[u8], types_to_load: &Option<Vec<FileType>>, use_lazy_loading: bool) -> (r:
        Result<Pack>)
        ensures
            match spec_read(data@, types_view(*types_to_load), use_lazy_loading) {
                Ok(pack) => r is Ok && r->Ok_0@ == pack && unique_paths(pack.files),
                Err(e) => r == Err::<Pack, RLibError>(e),
            },
    {
        proof {
            if spec_read(data@, types_view(*types_to_load), use_lazy_loading) is Ok {
                lemma_read_unique(data@, types_view(*types_to_load), use_lazy_loading);
            }
        }
        if data.len() < 8 {
            return Err(RLibError::PackFileHeaderNotComplete);
        }
        let mut at: usize = 0;
        let signature: u32 = match read_u32(data, &mut at) {
            Ok(v) => v,
            Err(e) => {
                return Err(e);
            },
        };
        if !(data[0] == 0x50 && data[1] == 0x46 && data[2] == 0x48 && 0x30 <= data[3] && data[3]
            <= 0x39) {
            return Err(RLibError::DecodingUnsupportedSignature(signature as u64));
        }
        let number: u32 = (data[3] - 0x30) as u32;
        let word: u32 = match read_u32(data, &mut at) {
            Ok(v) => v,
            Err(e) => {
                return Err(e);
            },
        };
        let file_type = PFHFileType::from_value(word & FILE_TYPE_MASK);
        let flags = PFHFlags { bits: word & !FILE_TYPE_MASK };
        if number == 6 {
            let mut pack = Pack::with_header(PFHVersion::PFH6, file_type, flags);
            match pack.read_pfh6(data, types_to_load, use_lazy_loading) {
                Ok(()) => Ok(pack),
                Err(e) => Err(e),
            }
        } else if number == 0 {
            let mut pack = Pack::with_header(PFHVersion::PFH0, file_type, flags);
            match pack.read_pfh0(data) {
                Ok(end) => {
                    if end != data.len() as u64 {
                        return Err(
                            RLibError::PackFileSizeIsNotWhatWeExpect(data.len() as u64, end),
                        );
                    }
                    if !use_lazy_loading {
                        crate::pack::pfh6::load_all(&mut pack.files, data);
                    }
                    Ok(pack)
                },
                Err(e) => Err(e),
            }
        } else {
            Err(RLibError::DecodingUnsupportedVersion(Entity::Pack, number))
        }
    }

    /// Writes the pack and gives its bytes. The files are then as they were written: none
    /// is marked as encrypted or as to be encrypted, each holds its data decrypted, and no
    /// table is to be compressed. On failure `self` stays as it was.
    #[verifier::rlimit(40)]
    pub fn save(&mut self, options: &SaveOptions) -> (r: Result<Vec<u8>>)
        ensures
            match spec_save(old(self)@, *options) {
                Ok((bytes, header)) => r is Ok && r->Ok_0@ == bytes && final(self)@ == (PackView {
                    header,
                    files: crate::pack::save::settled_files(old(self)@.files),
                    ..old(self)@
                }),
                Err(e) => r == Err::<Vec<u8>, RLibError>(e) && final(self)@ == old(self)@,
            },
            unique_paths(old(self)@.files) ==> unique_paths(final(self)@.files),
    {
        proof {
            if unique_paths(self@.files) {
                lemma_same_paths_unique(
                    self@.files,
                    crate::pack::save::settled_files(self@.files),
                );
            }
        }
        match self.header.pfh_version {
            PFHVersion::PFH6 => self.save_pfh6(options),
            PFHVersion::PFH0 => {
                let mut out: Vec<u8> = Vec::new();
                match self.write_pfh0(&mut out) {
                    Ok(()) => {
                        assert(out@ =~= spec_write_pfh0(self@)->Ok_0);
                        crate::pack::save::settle_all(&mut self.files);
                        Ok(out)
                    },
                    Err(e) => Err(e),
                }
            },
            other => Err(RLibError::EncodingUnsupportedVersion(Entity::Pack, other.number())),
        }
    }

    /// Puts a file into the pack: in the place of the file with the same path, or behind
    /// the others where there is none. Paths that were apart stay apart.
    pub fn insert(&mut self, file: RFile)
        ensures
            final(self)@ == (PackView { files: inserted(old(self)@.files, file@), ..old(self)@ }),
            unique_paths(old(self)@.files) ==> unique_paths(final(self)@.files),
    {
        proof {
            if unique_paths(self@.files) {
                lemma_inserted_unique(self@.files, file@);
            }
        }
        insert_file(&mut self.files, file);
    }

    /// Takes the file with the given path out of the pack and gives it, where there is one.
    pub fn remove(&mut self, path: &str) -> (r: Option<RFile>)
        ensures
            final(self)@ == (PackView { files: removed(old(self)@.files, path@), ..old(self)@ }),
            position_of(old(self)@.files, path@) < old(self)@.files.len() ==> r is Some
                && r->Some_0@ == old(self)@.files[position_of(old(self)@.files, path@)],
            position_of(old(self)@.files, path@) >= old(self)@.files.len() ==> r is None,
            unique_paths(old(self)@.files) ==> unique_paths(final(self)@.files),
    {
        proof {
            if unique_paths(self@.files) {
                lemma_removed_unique(self@.files, path@);
            }
        }
        let i: usize = find_file(&self.files, path);
        if i < self.files.len() {
            let file = self.files.remove(i);
            assert(file_views(self.files@) =~= removed(file_views(old(self).files@), path@));
            Some(file)
        } else {
            None
        }
    }

    /// The file with the given path, where there is one.
    pub fn file(&self, path: &str) -> (r: Option<&RFile>)
        ensures
            position_of(self@.files, path@) < self@.files.len() ==> r is Some && r->Some_0@
                == self@.files[position_of(self@.files, path@)],
            position_of(self@.files, path@) >= self@.files.len() ==> r is None,
    {
        let i: usize = find_file(&self.files, path);
        if i < self.files.len() {
            Some(&self.files[i])
        } else {
            None
        }
    }

    /// Gives the file at `old_path` the path `new_path`, in the place of any file that had
    /// that path. Tells whether there was a file at `old_path`.
    #[verifier::rlimit(40)]
    pub fn rename(&mut self, old_path: &str, new_path: &str) -> (r: bool)
        ensures
            r == (position_of(old(self)@.files, old_path@) < old(self)@.files.len()),
            !r ==> final(self)@ == old(self)@,
            r ==> final(self)@ == (PackView {
                files: inserted(
                    removed(old(self)@.files, old_path@),
                    RFileView {
                        path: new_path@,
                        ..old(self)@.files[position_of(old(self)@.files, old_path@)]
                    },
                ),
                ..old(self)@
            }),
            unique_paths(old(self)@.files) ==> unique_paths(final(self)@.files),
    {
        proof {
            if unique_paths(self@.files) {
                lemma_removed_unique(self@.files, old_path@);
                lemma_inserted_unique(
                    removed(self@.files, old_path@),
                    RFileView {
                        path: new_path@,
                        ..self@.files[position_of(self@.files, old_path@)]
                    },
                );
            }
        }
        match self.remove(old_path) {
            Some(file) => {
                let renamed = RFile {
                    path: string_from_chars(chars_of(new_path).as_slice()),
                    timestamp: file.timestamp,
                    should_be_compressed: file.should_be_compressed,
                    should_be_encrypted: file.should_be_encrypted,
                    data: file.data,
                };
                insert_file(&mut self.files, renamed);
                true
            },
            None => {
                assert(file_views(self.files@) =~= file_views(old(self).files@));
                false
            },
        }
    }

    /// The paths of the files whose kind is among `types` and whose path starts with
    /// `prefix`, in the order of the files.
    pub fn paths_by_type(&self, types: &Vec<FileType>, prefix: &str) -> (r: Vec<String>)
        ensures
            texts(r@) == matching_paths(self@.files, types@, prefix@, 0, Seq::empty()),
    {
        let prefix_chars = chars_of(prefix);
        let mut out: Vec<String> = Vec::new();
        let n: usize = self.files.len();
        let mut i: usize = 0;
        assert(texts(out@) =~= Seq::<Seq<char>>::empty());
        while i < n
            invariant
                i <= n == self.files@.len(),
                prefix_chars@ == prefix@,
                matching_paths(self@.files, types@, prefix@, 0, Seq::empty()) == matching_paths(
                    self@.files,
                    types@,
                    prefix@,
                    i as int,
                    texts(out@),
                ),
            decreases n - i,
        {
            let file = &self.files[i];
            let ghost before = texts(out@);
            let path_chars = chars_of(file.path.as_str());
            if contains_type(types, file.file_type()) && starts_with(&path_chars, &prefix_chars) {
                out.push(file.path.clone());
                assert(texts(out@) =~= before.push(file.path@));
            }
            i = i + 1;
        }
        out
    }

    /// Sets the names of the packs that are to be loaded before this one.
    pub fn set_dependencies(&mut self, dependencies: Vec<String>)
        ensures
            final(self)@ == (PackView { dependencies: texts(dependencies@), ..old(self)@ }),
    {
        self.dependencies = dependencies;
    }

    /// Sets the notes of the pack.
    pub fn set_notes(&mut self, notes: Option<String>)
        ensures
            final(self)@ == (PackView {
                notes: match notes {
                    Some(n) => Some(n@),
                    None => None,
                },
                ..old(self)@
            }),
    {
        self.notes = notes;
    }

    /// Sets the settings of the pack, as the text that is stored in it.
    pub fn set_settings(&mut self, settings: Vec<u8>)
        ensures
            final(self)@ == (PackView { settings: settings@, ..old(self)@ }),
    {
        self.settings = settings;
    }

    /// Asks for every file to be written compressed, or for none. Tables are written
    /// uncompressed whatever is asked for.
    #[verifier::rlimit(40)]
    pub fn set_compression(&mut self, compress: bool)
        ensures
            final(self)@.header == old(self)@.header,
            final(self)@.dependencies == old(self)@.dependencies,
            final(self)@.notes == old(self)@.notes,
            final(self)@.settings == old(self)@.settings,
            final(self)@.files.len() == old(self)@.files.len(),
            forall|i: int|
                0 <= i < old(self)@.files.len() ==> (#[trigger] final(self)@.files[i])
                    == (RFileView { should_be_compressed: compress, ..old(self)@.files[i] }),
    {
        let n: usize = self.files.len();
        let mut i: usize = 0;
        while i < n
            invariant
                i <= n == self.files@.len() == old(self).files@.len(),
                self.header == old(self).header,
                self.dependencies == old(self).dependencies,
                self.notes == old(self).notes,
                self.settings == old(self).settings,
                forall|k: int|
                    0 <= k < i ==> (#[trigger] self.files@[k])@ == (RFileView {
                        should_be_compressed: compress,
                        ..old(self).files@[k]@
                    }),
                forall|k: int| i <= k < n ==> (#[trigger] self.files@[k]) == old(self).files@[k],
            decreases n - i,
        {
            self.files[i].should_be_compressed = compress;
            i = i + 1;
        }
    }
}

} // verus!
