//! Packs of version 6: the layout of their header, and how they are read and written.

use vstd::prelude::*;
use vstd::slice::slice_subrange;
use vstd::utf8::{decode_utf8, valid_utf8};

use vstd::utf8::encode_utf8;

use crate::binary::{
    le_u32, parse_string_u8_0padded, parse_string_u8_0terminated, read_slice,
    read_string_u8_0padded, read_string_u8_0terminated, read_u32, u32_bytes, write_all,
    write_string_u8_0padded, write_u32, zeros,
};
use crate::pack::save::{
    collect_records, data_bytes, file_records, index_bytes, names_bytes, record_views,
    settle_all, settled_files, sort_records, sorted_records, virtual_record, write_data,
    write_index, write_names, SaveRecord, SaveRecordView,
};
use crate::text::to_lowercase;
use crate::error::{RLibError, Result};
use crate::pack::crypto::{decrypt_packed_file, decrypted_data};
use crate::pack::file_type::FileType;
use crate::pack::index::{
    index_steps, lemma_index_steps_account, padded_total, read_index_step, types_view,
    IndexCursor, IndexState,
};
use crate::pack::{
    file_views, FileData, FileDataView, PFHFileType, PFHFlags, PFHVersion, Pack, PackHeader,
    PackHeaderView, PackView, RFile, RFileView, HAS_ENCRYPTED_DATA, HAS_ENCRYPTED_INDEX,
    HAS_EXTENDED_HEADER, RESERVED_NAME_NOTES, RESERVED_NAME_SETTINGS,
};
use crate::text::string_from_utf8;

verus! {

/// The number of bytes of the header.
pub const HEADER_SIZE: usize = 308;

/// The number of bytes that an extended header adds.
pub const EXTENDED_HEADER_SIZE: usize = 20;

/// The number of bytes of the slot that holds the name of the authoring tool.
pub const AUTHORING_TOOL_SIZE: usize = 8;

/// The number of bytes that follow the data of the files in a pack with an extended header.
pub const FOOTER_SIZE: u64 = 256;

/// The number that marks the start of the second part of the header.
pub const SUBHEADER_MARK: u32 = 0x1234_5678;

/// The version of the second part of the header.
pub const SUBHEADER_VERSION: u32 = 1;

/// The number of bytes of the header of a pack with these flags.
pub open spec fn header_len(flags: PFHFlags) -> int {
    if flags.spec_contains(HAS_EXTENDED_HEADER) {
        328
    } else {
        308
    }
}

/// Where the data of the first file starts: behind the header and the two indexes, at the
/// next multiple of 8 where the pack has an extended header and encrypted data.
pub open spec fn data_start(flags: PFHFlags, dependencies_size: u32, index_size: u32) -> int {
    let end = header_len(flags) + dependencies_size + index_size;
    if flags.spec_contains(HAS_EXTENDED_HEADER) && flags.spec_contains(HAS_ENCRYPTED_DATA) && end
        % 8 > 0 {
        end + 8 - end % 8
    } else {
        end
    }
}

/// The number of bytes that follow the data of the last file.
pub open spec fn footer_len(flags: PFHFlags) -> int {
    if flags.spec_contains(HAS_EXTENDED_HEADER) {
        256
    } else {
        0
    }
}

/// The names read from a list of `remaining` names that starts at `pos`, each ended by a
/// zero byte, behind the names read before.
pub open spec fn parse_names(
    index: Seq<u8>,
    pos: int,
    remaining: nat,
    names: Seq<Seq<char>>,
) -> core::result::Result<Seq<Seq<char>>, RLibError>
    decreases remaining,
{
    if remaining == 0 {
        Ok(names)
    } else {
        match parse_string_u8_0terminated(index, pos) {
            Ok((name, next)) => parse_names(index, next, (remaining - 1) as nat, names.push(name)),
            Err(e) => Err(e),
        }
    }
}

/// The plain bytes of a file that lies in `data` and is not compressed.
pub open spec fn stored_bytes(file: RFileView, data: Seq<u8>) -> Option<Seq<u8>> {
    match file.data {
        FileDataView::OnDisk { start, size, is_compressed, is_encrypted } => {
            if is_compressed || start + size > data.len() {
                None
            } else if is_encrypted is Some {
                Some(decrypted_data(data.subrange(start as int, start + size)))
            } else {
                Some(data.subrange(start as int, start + size))
            }
        },
        FileDataView::OnMemory { .. } => None,
    }
}

/// The notes that the entry with the reserved path carries: the text of its bytes, where
/// they can be had and are text.
pub open spec fn notes_of(entry: Option<RFileView>, data: Seq<u8>) -> Option<Seq<char>> {
    match entry {
        Some(file) => match stored_bytes(file, data) {
            Some(bytes) => if valid_utf8(bytes) {
                Some(decode_utf8(bytes))
            } else {
                None
            },
            None => None,
        },
        None => None,
    }
}

/// The settings that the entry with the reserved path carries: its bytes, where they can be
/// had.
pub open spec fn settings_of(entry: Option<RFileView>, data: Seq<u8>) -> Seq<u8> {
    match entry {
        Some(file) => match stored_bytes(file, data) {
            Some(bytes) => bytes,
            None => Seq::empty(),
        },
        None => Seq::empty(),
    }
}

/// A file with its data fetched from `data`, where the data lies in it.
pub open spec fn materialized(file: RFileView, data: Seq<u8>) -> RFileView {
    match file.data {
        FileDataView::OnDisk { start, size, is_compressed, is_encrypted } => if start + size
            <= data.len() {
            RFileView {
                path: file.path,
                timestamp: file.timestamp,
                should_be_compressed: file.should_be_compressed,
                should_be_encrypted: file.should_be_encrypted,
                data: FileDataView::OnMemory {
                    data: data.subrange(start as int, start + size),
                    is_compressed,
                    is_encrypted,
                },
            }
        } else {
            file
        },
        FileDataView::OnMemory { .. } => file,
    }
}

/// The files, each with its data fetched from `data`.
pub open spec fn all_materialized(files: Seq<RFileView>, data: Seq<u8>) -> Seq<RFileView> {
    Seq::new(files.len(), |i: int| materialized(files[i], data))
}

/// In a pack of version 6 that was read no two files have the same path.
pub proof fn lemma_read_pfh6_unique(
    data: Seq<u8>,
    before: PackHeaderView,
    types: Option<Seq<FileType>>,
    lazy: bool,
)
    requires
        spec_read_pfh6(data, before, types, lazy) is Ok,
    ensures
        crate::pack::unique_paths(spec_read_pfh6(data, before, types, lazy)->Ok_0.files),
{
    let flags = before.bitmask;
    let header = header_len(flags);
    let dependencies_size = le_u32(data, 12);
    let files_count = le_u32(data, 16);
    let index_size = le_u32(data, 20);
    let index_start = header + dependencies_size;
    let start = IndexState {
        index_position: 0,
        data_position: data_start(flags, dependencies_size, index_size),
        files: Seq::empty(),
        notes: None,
        settings: None,
    };
    let index = data.subrange(index_start, index_start + index_size);
    crate::pack::index::lemma_index_steps_unique(
        index,
        flags,
        before.pfh_version,
        types,
        files_count as nat,
        start,
    );
    let st = index_steps(index, flags, before.pfh_version, types, files_count as nat, start)->Ok_0;
    if !lazy {
        crate::pack::lemma_same_paths_unique(st.files, all_materialized(st.files, data));
    }
}

/// The pack that the bytes of a pack of version 6 stand for. `before` is the header as the
/// first eight bytes gave it: version, kind and flags.
///
/// The header must be complete, then the indexes. The names of the dependencies are read,
/// then the records of the index, the first record with the number of records that follow
/// it. The data of the files must end where the pack ends, or where its footer starts.
pub open spec fn spec_read_pfh6(
    data: Seq<u8>,
    before: PackHeaderView,
    types: Option<Seq<FileType>>,
    lazy: bool,
) -> core::result::Result<PackView, RLibError> {
    let flags = before.bitmask;
    let header = header_len(flags);
    if data.len() < header {
        Err(RLibError::PackFileHeaderNotComplete)
    } else {
        let dependencies_count = le_u32(data, 8);
        let dependencies_size = le_u32(data, 12);
        let files_count = le_u32(data, 16);
        let index_size = le_u32(data, 20);
        match parse_string_u8_0padded(data, 44, 8) {
            Err(e) => Err(e),
            Ok((authoring_tool, _)) => {
                if data.len() < data_start(flags, dependencies_size, index_size) {
                    Err(RLibError::PackFileIndexesNotComplete)
                } else {
                    let names_start = header;
                    let index_start = header + dependencies_size;
                    match parse_names(
                        data.subrange(names_start, index_start),
                        0,
                        dependencies_count as nat,
                        Seq::empty(),
                    ) {
                        Err(e) => Err(e),
                        Ok(dependencies) => match index_steps(
                            data.subrange(index_start, index_start + index_size),
                            flags,
                            before.pfh_version,
                            types,
                            files_count as nat,
                            IndexState {
                                index_position: 0,
                                data_position: data_start(flags, dependencies_size, index_size),
                                files: Seq::empty(),
                                notes: None,
                                settings: None,
                            },
                        ) {
                            Err(e) => Err(e),
                            Ok(st) => if st.data_position + footer_len(flags) != data.len() {
                                Err(
                                    RLibError::PackFileSizeIsNotWhatWeExpect(
                                        data.len() as u64,
                                        st.data_position as u64,
                                    ),
                                )
                            } else {
                                Ok(
                                    PackView {
                                        header: PackHeaderView {
                                            pfh_version: before.pfh_version,
                                            pfh_file_type: before.pfh_file_type,
                                            bitmask: flags,
                                            timestamp: le_u32(data, 24),
                                            game_version: le_u32(data, 36),
                                            build_number: le_u32(data, 40),
                                            authoring_tool,
                                            extra_subheader_data: data.subrange(52, header),
                                        },
                                        dependencies,
                                        files: if lazy {
                                            st.files
                                        } else {
                                            all_materialized(st.files, data)
                                        },
                                        notes: notes_of(st.notes, data),
                                        settings: settings_of(st.settings, data),
                                    },
                                )
                            },
                        },
                    }
                }
            },
        }
    }
}

/// Reads `count` names, each ended by a zero byte, from the start of `index`.
pub fn read_names(index: &[u8], count: u32) -> (r: Result<Vec<String>>)
    ensures
        match parse_names(index@, 0, count as nat, Seq::empty()) {
            Ok(names) => r is Ok && crate::pack::texts(r->Ok_0@) == names,
            Err(e) => r == Err::<Vec<String>, RLibError>(e),
        },
{
    let mut names: Vec<String> = Vec::new();
    let mut pos: usize = 0;
    let mut left: u32 = count;
    assert(crate::pack::texts(names@) =~= Seq::<Seq<char>>::empty());
    while left > 0
        invariant
            parse_names(index@, 0, count as nat, Seq::empty()) == parse_names(
                index@,
                pos as int,
                left as nat,
                crate::pack::texts(names@),
            ),
        decreases left,
    {
        let ghost before = crate::pack::texts(names@);
        match read_string_u8_0terminated(index, &mut pos) {
            Ok(name) => {
                names.push(name);
                assert(crate::pack::texts(names@) =~= before.push(name@));
            },
            Err(e) => {
                return Err(e);
            },
        }
        left = left - 1;
    }
    Ok(names)
}

/// The plain bytes of a file that lies in `data` and is not compressed.
pub fn read_stored_bytes(file: &RFile, data: &[u8]) -> (r: Option<Vec<u8>>)
    ensures
        match stored_bytes(file@, data@) {
            Some(bytes) => r is Some && r->Some_0@ == bytes,
            None => r is None,
        },
{
    match &file.data {
        FileData::OnDisk { start, size, is_compressed, is_encrypted } => {
            let len: u64 = data.len() as u64;
            if *is_compressed || *start > len || len - *start < *size as u64 {
                None
            } else {
                let from: usize = *start as usize;
                let to: usize = from + *size as usize;
                let raw = slice_subrange(data, from, to);
                if is_encrypted.is_some() {
                    Some(decrypt_packed_file(raw))
                } else {
                    let mut cursor: usize = 0;
                    match read_slice(raw, &mut cursor, to - from) {
                        Ok(bytes) => {
                            assert(bytes@ =~= raw@);
                            Some(bytes)
                        },
                        Err(_) => None,
                    }
                }
            }
        },
        FileData::OnMemory { .. } => None,
    }
}

impl RFile {
    /// Fetches the data of the file from the backing source, where the file is not in
    /// memory yet and its data lies in the source. The data is kept as it is stored.
    pub fn load(&mut self, data: &[u8])
        ensures
            final(self)@ == materialized(old(self)@, data@),
    {
        let loaded: Option<FileData> = match &self.data {
            FileData::OnDisk { start, size, is_compressed, is_encrypted } => {
                let len: u64 = data.len() as u64;
                if *start > len || len - *start < *size as u64 {
                    None
                } else {
                    let mut cursor: usize = *start as usize;
                    match read_slice(data, &mut cursor, *size as usize) {
                        Ok(bytes) => Some(
                            FileData::OnMemory {
                                data: bytes,
                                is_compressed: *is_compressed,
                                is_encrypted: *is_encrypted,
                            },
                        ),
                        Err(_) => None,
                    }
                }
            },
            FileData::OnMemory { .. } => None,
        };
        match loaded {
            Some(d) => {
                self.data = d;
            },
            None => {},
        }
    }
}

/// Fetches the data of every file from the backing source.
pub fn load_all(files: &mut Vec<RFile>, data: &[u8])
    ensures
        file_views(final(files)@) == all_materialized(file_views(old(files)@), data@),
{
    let n: usize = files.len();
    let mut i: usize = 0;
    while i < n
        invariant
            i <= n == files@.len() == old(files)@.len(),
            forall|j: int| 0 <= j < i ==> (#[trigger] files@[j])@ == materialized(old(files)@[j]@, data@),
            forall|j: int| i <= j < n ==> (#[trigger] files@[j]) == old(files)@[j],
        decreases n - i,
    {
        files[i].load(data);
        i = i + 1;
    }
    assert(file_views(files@) =~= all_materialized(file_views(old(files)@), data@));
}

/// The text of optional bytes, where they are text.
fn text_of(bytes: Option<Vec<u8>>) -> (r: Option<String>)
    ensures
        match bytes {
            Some(b) => if valid_utf8(b@) {
                r is Some && r->Some_0@ == decode_utf8(b@)
            } else {
                r is None
            },
            None => r is None,
        },
{
    match bytes {
        Some(b) => string_from_utf8(b),
        None => None,
    }
}

/// Reads the records of an index of `count` records.
pub fn read_index(
    index: &[u8],
    flags: PFHFlags,
    version: PFHVersion,
    types: &Option<Vec<FileType>>,
    count: u32,
    data_position: u64,
) -> (r: Result<IndexCursor>)
    ensures
        match index_steps(
            index@,
            flags,
            version,
            types_view(*types),
            count as nat,
            IndexState {
                index_position: 0,
                data_position: data_position as int,
                files: Seq::empty(),
                notes: None,
                settings: None,
            },
        ) {
            Ok(st) => r is Ok && r->Ok_0@ == st,
            Err(e) => r == Err::<IndexCursor, RLibError>(e),
        },
{
    let mut cursor = IndexCursor {
        index_position: 0,
        data_position,
        files: Vec::new(),
        notes: None,
        settings: None,
    };
    let ghost start = cursor@;
    assert(start.files =~= Seq::<RFileView>::empty());
    let mut left: u32 = count;
    while left > 0
        invariant
            start == (IndexState {
                index_position: 0,
                data_position: data_position as int,
                files: Seq::empty(),
                notes: None,
                settings: None,
            }),
            index_steps(index@, flags, version, types_view(*types), count as nat, start)
                == index_steps(index@, flags, version, types_view(*types), left as nat, cursor@),
        decreases left,
    {
        match read_index_step(index, flags, version, types, left - 1, &mut cursor) {
            Ok(()) => {},
            Err(e) => {
                return Err(e);
            },
        }
        left = left - 1;
    }
    Ok(cursor)
}

impl Pack {
    /// Reads a pack of version 6 from its bytes. The version, the kind and the flags of the
    /// header are taken as they stand in `self`; the rest of `self` is replaced. Only files
    /// of the kinds in `types_to_load` are kept, where kinds are given. With
    /// `use_lazy_loading` the files stay in the backing source; without it their data is
    /// fetched. On failure `self` stays as it was.
    #[verifier::rlimit(40)]
    pub fn read_pfh6(
        &mut self,
        data: &[u8],
        types_to_load: &Option<Vec<FileType>>,
        use_lazy_loading: bool,
    ) -> (r: Result<()>)
        ensures
            match spec_read_pfh6(
                data@,
                old(self).header@,
                types_view(*types_to_load),
                use_lazy_loading,
            ) {
                Ok(pack) => r is Ok && final(self)@ == pack && crate::pack::unique_paths(
                    pack.files,
                ),
                Err(e) => r == Err::<(), RLibError>(e) && final(self)@ == old(self)@,
            },
    {
        proof {
            if spec_read_pfh6(
                data@,
                self.header@,
                types_view(*types_to_load),
                use_lazy_loading,
            ) is Ok {
                lemma_read_pfh6_unique(
                    data@,
                    self.header@,
                    types_view(*types_to_load),
                    use_lazy_loading,
                );
            }
        }
        let flags: PFHFlags = self.header.bitmask;
        let extended: bool = flags.contains(HAS_EXTENDED_HEADER);
        let header: usize = if extended {
            HEADER_SIZE + EXTENDED_HEADER_SIZE
        } else {
            HEADER_SIZE
        };
        if data.len() < header {
            return Err(RLibError::PackFileHeaderNotComplete);
        }
        let mut at: usize = 8;
        let dependencies_count: u32 = match read_u32(data, &mut at) {
            Ok(v) => v,
            Err(e) => {
                return Err(e);
            },
        };
        let dependencies_size: u32 = match read_u32(data, &mut at) {
            Ok(v) => v,
            Err(e) => {
                return Err(e);
            },
        };
        let files_count: u32 = match read_u32(data, &mut at) {
            Ok(v) => v,
            Err(e) => {
                return Err(e);
            },
        };
        let index_size: u32 = match read_u32(data, &mut at) {
            Ok(v) => v,
            Err(e) => {
                return Err(e);
            },
        };
        let timestamp: u32 = match read_u32(data, &mut at) {
            Ok(v) => v,
            Err(e) => {
                return Err(e);
            },
        };
        at = 36;
        let game_version: u32 = match read_u32(data, &mut at) {
            Ok(v) => v,
            Err(e) => {
                return Err(e);
            },
        };
        let build_number: u32 = match read_u32(data, &mut at) {
            Ok(v) => v,
            Err(e) => {
                return Err(e);
            },
        };
        let authoring_tool: String = match read_string_u8_0padded(
            data,
            &mut at,
            AUTHORING_TOOL_SIZE,
        ) {
            Ok(v) => v,
            Err(e) => {
                return Err(e);
            },
        };
        let extra_subheader_data: Vec<u8> = match read_slice(data, &mut at, header - 52) {
            Ok(v) => v,
            Err(e) => {
                return Err(e);
            },
        };
        let indexes_end: u64 = header as u64 + dependencies_size as u64 + index_size as u64;
        let first_data: u64 = if extended && flags.contains(HAS_ENCRYPTED_DATA) && indexes_end % 8
            > 0 {
            indexes_end + 8 - indexes_end % 8
        } else {
            indexes_end
        };
        let len: u64 = data.len() as u64;
        if len < first_data {
            return Err(RLibError::PackFileIndexesNotComplete);
        }
        let index_start: usize = header + dependencies_size as usize;
        let names = slice_subrange(data, header, index_start);
        let index = slice_subrange(data, index_start, index_start + index_size as usize);
        let dependencies: Vec<String> = match read_names(names, dependencies_count) {
            Ok(v) => v,
            Err(e) => {
                return Err(e);
            },
        };
        let cursor: IndexCursor = match read_index(
            index,
            flags,
            self.header.pfh_version,
            types_to_load,
            files_count,
            first_data,
        ) {
            Ok(v) => v,
            Err(e) => {
                return Err(e);
            },
        };
        let footer: u64 = if extended {
            FOOTER_SIZE
        } else {
            0
        };
        if cursor.data_position > len || len - cursor.data_position != footer {
            return Err(RLibError::PackFileSizeIsNotWhatWeExpect(len, cursor.data_position));
        }
        let notes: Option<String> = match &cursor.notes {
            Some(file) => text_of(read_stored_bytes(file, data)),
            None => None,
        };
        let settings: Vec<u8> = match &cursor.settings {
            Some(file) => match read_stored_bytes(file, data) {
                Some(bytes) => bytes,
                None => Vec::new(),
            },
            None => Vec::new(),
        };
        let mut files: Vec<RFile> = cursor.files;
        if !use_lazy_loading {
            load_all(&mut files, data);
        }
        self.header.timestamp = timestamp;
        self.header.game_version = game_version;
        self.header.build_number = build_number;
        self.header.authoring_tool = authoring_tool;
        self.header.extra_subheader_data = extra_subheader_data;
        self.dependencies = dependencies;
        self.files = files;
        self.notes = notes;
        self.settings = settings;
        Ok(())
    }
}

/// The name that packs made by the game's own tools carry as their authoring tool.
pub const AUTHORING_TOOL_CA: &'static str = "CA_TOOL";

/// What the writing of a pack takes from its surroundings.
#[derive(Clone, Copy, Debug)]
pub struct SaveOptions {
    /// Whether packs of the kinds that the game ships may be written.
    pub allow_editing_of_ca_packfiles: bool,
    /// Whether the pack is to name the game's own tools as its authoring tool.
    pub spoof_ca_authoring_tool: bool,
    /// The time of writing.
    pub timestamp: u32,
    /// The version of the game that the pack is written for, where it is known.
    pub game_version: Option<u32>,
}

/// True when the pack can be written: it has no extended header and nothing encrypted, and
/// it is a mod or a movie pack, or one of the kinds that the game ships where those may be
/// written.
pub open spec fn spec_is_editable(header: PackHeaderView, allow_ca: bool) -> bool {
    &&& !header.bitmask.spec_contains(HAS_ENCRYPTED_DATA)
    &&& !header.bitmask.spec_contains(HAS_ENCRYPTED_INDEX)
    &&& !header.bitmask.spec_contains(HAS_EXTENDED_HEADER)
    &&& (header.pfh_file_type == PFHFileType::Mod || header.pfh_file_type == PFHFileType::Movie
        || (allow_ca && header.pfh_file_type.spec_value() <= 2))
}

/// The records that a pack is written from: those of its files, then one for its notes
/// where it has notes, then one for its settings.
pub open spec fn pack_records(
    pack: PackView,
) -> core::result::Result<Seq<SaveRecordView>, RLibError> {
    match file_records(pack.files, 0, Seq::empty()) {
        Err(e) => Err(e),
        Ok(records) => {
            let notes_too_big = pack.notes is Some && encode_utf8(pack.notes->Some_0).len()
                > u32::MAX;
            if notes_too_big || pack.settings.len() > u32::MAX {
                Err(RLibError::PackFileTooBig)
            } else {
                let with_notes = match pack.notes {
                    Some(notes) => records.push(
                        virtual_record(RESERVED_NAME_NOTES@, encode_utf8(notes)),
                    ),
                    None => records,
                };
                Ok(with_notes.push(virtual_record(RESERVED_NAME_SETTINGS@, pack.settings)))
            }
        },
    }
}

/// The header as it is written: with the time of writing, the version of the game where it
/// is known, and the authoring tool.
pub open spec fn saved_header(header: PackHeaderView, options: SaveOptions) -> PackHeaderView {
    PackHeaderView {
        pfh_version: header.pfh_version,
        pfh_file_type: header.pfh_file_type,
        bitmask: header.bitmask,
        timestamp: options.timestamp,
        game_version: match options.game_version {
            Some(v) => v,
            None => header.game_version,
        },
        build_number: header.build_number,
        authoring_tool: if options.spoof_ca_authoring_tool {
            AUTHORING_TOOL_CA@
        } else {
            header.authoring_tool
        },
        extra_subheader_data: header.extra_subheader_data,
    }
}

/// The bytes of the header of a pack of version 6.
pub open spec fn header_bytes(
    header: PackHeaderView,
    dependencies_count: u32,
    dependencies_size: u32,
    files_count: u32,
    index_size: u32,
) -> Seq<u8> {
    header.pfh_version.spec_preamble() + u32_bytes(
        header.bitmask.bits | header.pfh_file_type.spec_value(),
    ) + u32_bytes(dependencies_count) + u32_bytes(dependencies_size) + u32_bytes(files_count)
        + u32_bytes(index_size) + u32_bytes(header.timestamp) + u32_bytes(SUBHEADER_MARK)
        + u32_bytes(SUBHEADER_VERSION) + u32_bytes(header.game_version) + u32_bytes(
        header.build_number,
    ) + encode_utf8(header.authoring_tool) + zeros(8 - encode_utf8(header.authoring_tool).len())
        + header.extra_subheader_data
}

/// The bytes of a pack with the given header, dependencies and records: header, names of
/// the dependencies, index, data. The counts and sizes must fit the header's 32-bit fields.
pub open spec fn assembled(
    header: PackHeaderView,
    dependencies: Seq<Seq<char>>,
    records: Seq<SaveRecordView>,
) -> core::result::Result<Seq<u8>, RLibError> {
    let names = names_bytes(dependencies);
    let index = index_bytes(records, header.bitmask);
    if dependencies.len() > u32::MAX || names.len() > u32::MAX || records.len() > u32::MAX
        || index.len() > u32::MAX {
        Err(RLibError::PackFileTooBig)
    } else {
        Ok(
            header_bytes(
                header,
                dependencies.len() as u32,
                names.len() as u32,
                records.len() as u32,
                index.len() as u32,
            ) + names + index + data_bytes(records),
        )
    }
}

/// What stands against writing a pack with this header, where anything does.
pub open spec fn header_fault(header: PackHeaderView) -> Option<RLibError> {
    if encode_utf8(header.authoring_tool).len() > 8 {
        Some(RLibError::EncodingStringTooLong(encode_utf8(header.authoring_tool).len() as usize))
    } else if header.extra_subheader_data.len() != 256 {
        Some(RLibError::PackFileHeaderNotComplete)
    } else {
        None
    }
}

/// The bytes that a pack of version 6 is written as, and its header afterwards.
///
/// The pack must be one that can be written. Its files are written in the order of their
/// paths, letters of either case alike, with the entries for the notes and the settings
/// among them: header, names of the dependencies, index, data.
pub open spec fn spec_save_pfh6(pack: PackView, options: SaveOptions) -> core::result::Result<
    (Seq<u8>, PackHeaderView),
    RLibError,
> {
    let header = saved_header(pack.header, options);
    if !spec_is_editable(pack.header, options.allow_editing_of_ca_packfiles) {
        Err(RLibError::PackFileIsNonEditable)
    } else if pack_records(pack) is Err {
        Err(pack_records(pack)->Err_0)
    } else if header_fault(header) is Some {
        Err(header_fault(header)->Some_0)
    } else {
        match assembled(header, pack.dependencies, sorted_records(pack_records(pack)->Ok_0)) {
            Ok(bytes) => Ok((bytes, header)),
            Err(e) => Err(e),
        }
    }
}

impl PFHVersion {
    /// Appends the four bytes that a pack of this version starts with.
    pub fn write_preamble(&self, buffer: &mut Vec<u8>)
        ensures
            final(buffer)@ == old(buffer)@ + self.spec_preamble(),
    {
        buffer.push(0x50);
        buffer.push(0x46);
        buffer.push(0x48);
        buffer.push((0x30 + self.number()) as u8);
        assert(buffer@ =~= old(buffer)@ + self.spec_preamble());
    }
}

impl Pack {
    /// Tells whether the pack can be written.
    pub fn is_editable(&self, allow_editing_of_ca_packfiles: bool) -> (r: bool)
        ensures
            r == spec_is_editable(self.header@, allow_editing_of_ca_packfiles),
    {
        let flags = self.header.bitmask;
        if flags.contains(HAS_ENCRYPTED_DATA) || flags.contains(HAS_ENCRYPTED_INDEX)
            || flags.contains(HAS_EXTENDED_HEADER) {
            false
        } else {
            match self.header.pfh_file_type {
                PFHFileType::Mod => true,
                PFHFileType::Movie => true,
                other => allow_editing_of_ca_packfiles && other.value() <= 2,
            }
        }
    }

    /// The records that the pack is written from.
    #[verifier::rlimit(40)]
    pub fn save_records(&self) -> (r: Result<Vec<SaveRecord>>)
        ensures
            match pack_records(self@) {
                Ok(records) => r is Ok && record_views(r->Ok_0@) == records,
                Err(e) => r == Err::<Vec<SaveRecord>, RLibError>(e),
            },
    {
        let mut records: Vec<SaveRecord> = match collect_records(&self.files) {
            Ok(v) => v,
            Err(e) => {
                return Err(e);
            },
        };
        let notes_too_big: bool = match &self.notes {
            Some(notes) => notes.as_str().as_bytes().len() > 0xFFFF_FFFF,
            None => false,
        };
        if notes_too_big || self.settings.len() > 0xFFFF_FFFF {
            return Err(RLibError::PackFileTooBig);
        }
        let ghost files = record_views(records@);
        match &self.notes {
            Some(notes) => {
                let mut data: Vec<u8> = Vec::new();
                write_all(&mut data, notes.as_str().as_bytes());
                assert(data@ =~= encode_utf8(notes@));
                records.push(
                    SaveRecord {
                        key: to_lowercase(RESERVED_NAME_NOTES),
                        path: crate::text::string_from_chars(
                            crate::text::chars_of(RESERVED_NAME_NOTES).as_slice(),
                        ),
                        timestamp: 0,
                        is_compressed: false,
                        data,
                    },
                );
                assert(record_views(records@) =~= files.push(
                    virtual_record(RESERVED_NAME_NOTES@, encode_utf8(notes@)),
                ));
            },
            None => {},
        }
        let ghost with_notes = record_views(records@);
        records.push(
            SaveRecord {
                key: to_lowercase(RESERVED_NAME_SETTINGS),
                path: crate::text::string_from_chars(
                    crate::text::chars_of(RESERVED_NAME_SETTINGS).as_slice(),
                ),
                timestamp: 0,
                is_compressed: false,
                data: self.settings.clone(),
            },
        );
        assert(record_views(records@) =~= with_notes.push(
            virtual_record(RESERVED_NAME_SETTINGS@, self.settings@),
        ));
        Ok(records)
    }

    /// Writes the pack as a pack of version 6 and gives its bytes. The header of the pack
    /// takes the time of writing, the version of the game and the authoring tool from
    /// `options`. The files are then as they were written: none is marked as encrypted or
    /// as to be encrypted, each holds its data decrypted, and no table is to be compressed.
    /// On failure `self` stays as it was.
    #[verifier::rlimit(40)]
    pub fn save_pfh6(&mut self, options: &SaveOptions) -> (r: Result<Vec<u8>>)
        ensures
            match spec_save_pfh6(old(self)@, *options) {
                Ok((bytes, header)) => r is Ok && r->Ok_0@ == bytes && final(self)@ == (PackView {
                    header,
                    files: settled_files(old(self)@.files),
                    ..old(self)@
                }),
                Err(e) => r == Err::<Vec<u8>, RLibError>(e) && final(self)@ == old(self)@,
            },
            crate::pack::unique_paths(old(self)@.files) ==> crate::pack::unique_paths(
                final(self)@.files,
            ),
    {
        proof {
            if crate::pack::unique_paths(self@.files) {
                crate::pack::lemma_same_paths_unique(self@.files, settled_files(self@.files));
            }
        }
        if !self.is_editable(options.allow_editing_of_ca_packfiles) {
            return Err(RLibError::PackFileIsNonEditable);
        }
        let records: Vec<SaveRecord> = match self.save_records() {
            Ok(v) => v,
            Err(e) => {
                return Err(e);
            },
        };
        let sorted: Vec<SaveRecord> = sort_records(records);
        assert(forall|i: int|
            0 <= i < sorted@.len() ==> (#[trigger] sorted@[i]).data@.len() <= u32::MAX) by {
            lemma_pack_records_sizes(old(self)@);
            lemma_sorted_sizes(record_views(sorted@), pack_records(old(self)@)->Ok_0);
            assert forall|i: int| 0 <= i < sorted@.len() implies (#[trigger] sorted@[i]).data@.len()
                <= u32::MAX by {
                assert(record_views(sorted@)[i].data.len() <= u32::MAX);
            }
        }
        let header = PackHeader {
            pfh_version: self.header.pfh_version,
            pfh_file_type: self.header.pfh_file_type,
            bitmask: self.header.bitmask,
            timestamp: options.timestamp,
            game_version: match options.game_version {
                Some(v) => v,
                None => self.header.game_version,
            },
            build_number: self.header.build_number,
            authoring_tool: if options.spoof_ca_authoring_tool {
                crate::text::string_from_chars(crate::text::chars_of(AUTHORING_TOOL_CA).as_slice())
            } else {
                self.header.authoring_tool.clone()
            },
            extra_subheader_data: self.header.extra_subheader_data.clone(),
        };
        assert(header@ == saved_header(old(self).header@, *options));
        let tool_len: usize = header.authoring_tool.as_str().as_bytes().len();
        if tool_len > AUTHORING_TOOL_SIZE {
            return Err(RLibError::EncodingStringTooLong(tool_len));
        }
        if header.extra_subheader_data.len() != 256 {
            return Err(RLibError::PackFileHeaderNotComplete);
        }
        match assemble(&header, &self.dependencies, &sorted) {
            Ok(bytes) => {
                self.header = header;
                settle_all(&mut self.files);
                Ok(bytes)
            },
            Err(e) => Err(e),
        }
    }
}

/// Puts the bytes of a pack together: header, names of the dependencies, index, data.
#[verifier::rlimit(40)]
pub(crate) fn assemble(
    header: &PackHeader,
    dependencies: &Vec<String>,
    records: &Vec<SaveRecord>,
) -> (r:
    Result<Vec<u8>>)
    requires
        encode_utf8(header.authoring_tool@).len() <= 8,
        forall|i: int| 0 <= i < records@.len() ==> (#[trigger] records@[i]).data@.len() <= u32::MAX,
    ensures
        match assembled(header@, crate::pack::texts(dependencies@), record_views(records@)) {
            Ok(bytes) => r is Ok && r->Ok_0@ == bytes,
            Err(e) => r == Err::<Vec<u8>, RLibError>(e),
        },
{
    let mut names: Vec<u8> = Vec::new();
    write_names(&mut names, dependencies);
    assert(names@ =~= names_bytes(crate::pack::texts(dependencies@)));
    let mut index: Vec<u8> = Vec::new();
    write_index(&mut index, records, header.bitmask);
    assert(index@ =~= index_bytes(record_views(records@), header.bitmask));
    if dependencies.len() > 0xFFFF_FFFF || names.len() > 0xFFFF_FFFF || records.len()
        > 0xFFFF_FFFF || index.len() > 0xFFFF_FFFF {
        return Err(RLibError::PackFileTooBig);
    }
    let mut out: Vec<u8> = Vec::new();
    write_header(
        &mut out,
        header,
        dependencies.len() as u32,
        names.len() as u32,
        records.len() as u32,
        index.len() as u32,
    );
    let ghost header_part = out@;
    assert(header_part =~= header_bytes(
        header@,
        dependencies@.len() as u32,
        names@.len() as u32,
        records@.len() as u32,
        index@.len() as u32,
    ));
    write_all(&mut out, names.as_slice());
    write_all(&mut out, index.as_slice());
    write_data(&mut out, records);
    assert(out@ =~= header_part + names@ + index@ + data_bytes(record_views(records@)));
    Ok(out)
}

/// Appends the header of a pack of version 6.
#[verifier::rlimit(40)]
pub(crate) fn write_header(
    out: &mut Vec<u8>,
    header: &PackHeader,
    dependencies_count: u32,
    dependencies_size: u32,
    files_count: u32,
    index_size: u32,
)
    requires
        encode_utf8(header.authoring_tool@).len() <= 8,
    ensures
        final(out)@ == old(out)@ + header_bytes(
            header@,
            dependencies_count,
            dependencies_size,
            files_count,
            index_size,
        ),
{
    header.pfh_version.write_preamble(out);
    write_u32(out, header.bitmask.bits | header.pfh_file_type.value());
    write_u32(out, dependencies_count);
    write_u32(out, dependencies_size);
    write_u32(out, files_count);
    write_u32(out, index_size);
    write_u32(out, header.timestamp);
    write_u32(out, SUBHEADER_MARK);
    write_u32(out, SUBHEADER_VERSION);
    write_u32(out, header.game_version);
    write_u32(out, header.build_number);
    let _ = write_string_u8_0padded(out, header.authoring_tool.as_str(), AUTHORING_TOOL_SIZE);
    write_all(out, header.extra_subheader_data.as_slice());
    assert(out@ =~= old(out)@ + header_bytes(
        header@,
        dependencies_count,
        dependencies_size,
        files_count,
        index_size,
    ));
}

/// The records of files have data within the size that the index can hold.
pub proof fn lemma_file_records_sizes(files: Seq<RFileView>, i: int, done: Seq<SaveRecordView>)
    requires
        0 <= i,
        file_records(files, i, done) is Ok,
        forall|k: int| 0 <= k < done.len() ==> (#[trigger] done[k]).data.len() <= u32::MAX,
    ensures
        forall|k: int|
            0 <= k < file_records(files, i, done)->Ok_0.len() ==> (#[trigger] file_records(
                files,
                i,
                done,
            )->Ok_0[k]).data.len() <= u32::MAX,
    decreases files.len() - i,
{
    if i < files.len() {
        let r = crate::pack::save::file_record(files[i])->Ok_0;
        assert(r.data.len() <= u32::MAX);
        lemma_file_records_sizes(files, i + 1, done.push(r));
    }
}

/// The records of a pack have data within the size that the index can hold.
pub proof fn lemma_pack_records_sizes(pack: PackView)
    requires
        pack_records(pack) is Ok,
    ensures
        forall|k: int|
            0 <= k < pack_records(pack)->Ok_0.len() ==> (#[trigger] pack_records(
                pack,
            )->Ok_0[k]).data.len() <= u32::MAX,
{
    lemma_file_records_sizes(pack.files, 0, Seq::empty());
}

/// Sorting keeps the data of every record within the size that the index can hold.
pub proof fn lemma_sorted_sizes(sorted: Seq<SaveRecordView>, records: Seq<SaveRecordView>)
    requires
        sorted == sorted_records(records),
        forall|i: int| 0 <= i < records.len() ==> (#[trigger] records[i]).data.len() <= u32::MAX,
    ensures
        forall|i: int| 0 <= i < sorted.len() ==> (#[trigger] sorted[i]).data.len() <= u32::MAX,
{
    crate::pack::save::lemma_sorted_records(records);
    assert forall|i: int| 0 <= i < sorted.len() implies (#[trigger] sorted[i]).data.len()
        <= u32::MAX by {
        broadcast use vstd::seq_lib::group_to_multiset_ensures;

        assert(sorted.to_multiset().count(sorted[i]) > 0);
        assert(records.to_multiset().count(sorted[i]) > 0);
        assert(records.contains(sorted[i]));
    }
}

/// The bytes of a pack of version 6 that can be read are all accounted for: the header,
/// the names of the dependencies, the index, the padding behind it, the data of every file
/// of the index with its padding, and the footer make up the length of the pack.
pub proof fn lemma_index_arithmetic(
    data: Seq<u8>,
    before: PackHeaderView,
    types: Option<Seq<FileType>>,
    lazy: bool,
)
    requires
        spec_read_pfh6(data, before, types, lazy) is Ok,
    ensures
        ({
            let flags = before.bitmask;
            let dependencies_size = le_u32(data, 12);
            let files_count = le_u32(data, 16);
            let index_size = le_u32(data, 20);
            let index_start = header_len(flags) + dependencies_size;
            data.len() == data_start(flags, dependencies_size, index_size) + padded_total(
                data.subrange(index_start, index_start + index_size),
                flags,
                0,
                files_count as nat,
            ) + footer_len(flags)
        }),
        ({
            let flags = before.bitmask;
            let end = header_len(flags) + le_u32(data, 12) + le_u32(data, 20);
            end <= data_start(flags, le_u32(data, 12), le_u32(data, 20)) < end + 8
        }),
{
    let flags = before.bitmask;
    let dependencies_size = le_u32(data, 12);
    let files_count = le_u32(data, 16);
    let index_size = le_u32(data, 20);
    let index_start = header_len(flags) + dependencies_size;
    lemma_index_steps_account(
        data.subrange(index_start, index_start + index_size),
        flags,
        before.pfh_version,
        types,
        files_count as nat,
        IndexState {
            index_position: 0,
            data_position: data_start(flags, dependencies_size, index_size),
            files: Seq::empty(),
            notes: None,
            settings: None,
        },
    );
}

} // verus!
