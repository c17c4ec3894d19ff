//! The index of a pack: one record for each file, in the order of the files' data.

use vstd::prelude::*;

use crate::binary::{
    has_bytes, parse_string_u8_0terminated, parse_u32, read_string_u8_0terminated, read_u32,
};
use crate::error::{RLibError, Result};
use crate::pack::crypto::{
    decrypt_index_item_file_length, decrypt_index_item_filename, decrypted_path, decrypted_u32,
    encrypted_path_len,
};
use crate::pack::file_type::{classify, FileType};
use crate::pack::{
    file_views, insert_file, inserted, FileData, FileDataView, PFHFlags, PFHVersion, RFile,
    RFileView, HAS_ENCRYPTED_DATA, HAS_ENCRYPTED_INDEX, HAS_EXTENDED_HEADER,
    HAS_INDEX_WITH_TIMESTAMPS, RESERVED_NAME_NOTES, RESERVED_NAME_SETTINGS,
};
use crate::text::{lowercase_of, push_char, replace_char, replaced, str_eq};

verus! {

/// One record of the index.
#[derive(Debug)]
pub struct IndexEntry {
    pub size: u32,
    pub timestamp: u32,
    pub is_compressed: bool,
    /// The path, with `/` between its parts.
    pub path: String,
}

/// What an `IndexEntry` holds.
pub struct IndexEntryView {
    pub size: u32,
    pub timestamp: u32,
    pub is_compressed: bool,
    pub path: Seq<char>,
}

impl View for IndexEntry {
    type V = IndexEntryView;

    open spec fn view(&self) -> IndexEntryView {
        IndexEntryView {
            size: self.size,
            timestamp: self.timestamp,
            is_compressed: self.is_compressed,
            path: self.path@,
        }
    }
}

/// The text whose characters have the values of the given bytes.
pub open spec fn latin1(bytes: Seq<u8>) -> Seq<char> {
    Seq::new(bytes.len(), |i: int| bytes[i] as char)
}

/// The number of bytes that the data of a file of `size` bytes takes in the pack: the size,
/// rounded up to a multiple of 8 where the pack has an extended header and encrypted data.
pub open spec fn padded_size(size: u32, flags: PFHFlags) -> int {
    if flags.spec_contains(HAS_EXTENDED_HEADER) && flags.spec_contains(HAS_ENCRYPTED_DATA) && size
        % 8 > 0 {
        size + 8 - size % 8
    } else {
        size as int
    }
}

/// What reading one record of the index at `pos` gives, and where the next record starts.
/// `entries_after` is the number of records that follow this one.
///
/// The record holds the size; a timestamp where the index has timestamps; one byte that
/// tells whether the file is compressed, but not where the header is extended; and the path,
/// ended by a zero byte. In an encrypted index the size, the timestamp and the path are
/// encrypted.
pub open spec fn parse_index_entry(
    index: Seq<u8>,
    pos: int,
    flags: PFHFlags,
    entries_after: u32,
) -> core::result::Result<(IndexEntryView, int), RLibError> {
    let encrypted = flags.spec_contains(HAS_ENCRYPTED_INDEX);
    let timestamps = flags.spec_contains(HAS_INDEX_WITH_TIMESTAMPS);
    let extended = flags.spec_contains(HAS_EXTENDED_HEADER);
    let after_size = pos + 4;
    let after_timestamp = if timestamps { after_size + 4 } else { after_size };
    let path_start = if extended { after_timestamp } else { after_timestamp + 1 };
    if !has_bytes(index, pos, path_start - pos) {
        Err(RLibError::DecodingNotEnoughBytes)
    } else {
        let raw_size = parse_u32(index, pos)->Ok_0.0;
        let raw_timestamp = if timestamps { parse_u32(index, after_size)->Ok_0.0 } else { 0u32 };
        let size = if encrypted { decrypted_u32(raw_size, entries_after) } else { raw_size };
        let timestamp = if timestamps && encrypted {
            decrypted_u32(raw_timestamp, entries_after)
        } else {
            raw_timestamp
        };
        let is_compressed = !extended && index[after_timestamp] == 1;
        if encrypted {
            let key = (size % 0x100) as u8;
            Ok(
                (
                    IndexEntryView {
                        size,
                        timestamp,
                        is_compressed,
                        path: replaced(latin1(decrypted_path(index, path_start, key)), '\\', '/'),
                    },
                    path_start + encrypted_path_len(index, path_start, key, 0),
                ),
            )
        } else {
            match parse_string_u8_0terminated(index, path_start) {
                Ok((text, next)) => Ok(
                    (
                        IndexEntryView {
                            size,
                            timestamp,
                            is_compressed,
                            path: replaced(text, '\\', '/'),
                        },
                        next,
                    ),
                ),
                Err(e) => Err(e),
            }
        }
    }
}

/// The text whose characters have the values of the given bytes.
pub fn latin1_string(bytes: &[u8]) -> (r: String)
    ensures
        r@ == latin1(bytes@),
{
    let mut s = String::new();
    let mut i: usize = 0;
    while i < bytes.len()
        invariant
            i <= bytes@.len(),
            s@ == latin1(bytes@).subrange(0, i as int),
        decreases bytes@.len() - i,
    {
        push_char(&mut s, bytes[i] as char);
        i = i + 1;
        assert(s@ =~= latin1(bytes@).subrange(0, i as int));
    }
    assert(s@ =~= latin1(bytes@));
    s
}

/// Reads one record of the index. `entries_after` is the number of records that follow it.
#[verifier::rlimit(40)]
pub fn read_index_entry(
    index: &[u8],
    pos: &mut usize,
    flags: PFHFlags,
    entries_after: u32,
) -> (r: Result<IndexEntry>)
    ensures
        match parse_index_entry(index@, *old(pos) as int, flags, entries_after) {
            Ok((entry, next)) => r is Ok && r->Ok_0@ == entry && *final(pos) == next,
            Err(e) => r == Err::<IndexEntry, RLibError>(e) && *final(pos) == *old(pos),
        },
{
    let start: usize = *pos;
    let encrypted = flags.contains(HAS_ENCRYPTED_INDEX);
    let timestamps = flags.contains(HAS_INDEX_WITH_TIMESTAMPS);
    let extended = flags.contains(HAS_EXTENDED_HEADER);
    let fixed: usize = 4 + (if timestamps { 4 } else { 0 }) + (if extended { 0 } else { 1 });
    if !(start <= index.len() && index.len() - start >= fixed) {
        return Err(RLibError::DecodingNotEnoughBytes);
    }
    let mut cursor: usize = start;
    let raw_size: u32 = match read_u32(index, &mut cursor) {
        Ok(v) => v,
        Err(e) => {
            return Err(e);
        },
    };
    let raw_timestamp: u32 = if timestamps {
        match read_u32(index, &mut cursor) {
            Ok(v) => v,
            Err(e) => {
                return Err(e);
            },
        }
    } else {
        0
    };
    let size: u32 = if encrypted {
        decrypt_index_item_file_length(raw_size, entries_after)
    } else {
        raw_size
    };
    let timestamp: u32 = if timestamps && encrypted {
        decrypt_index_item_file_length(raw_timestamp, entries_after)
    } else {
        raw_timestamp
    };
    let is_compressed: bool = !extended && index[cursor] == 1;
    if !extended {
        cursor = cursor + 1;
    }
    if encrypted {
        let key: u8 = (size % 0x100) as u8;
        let bytes = decrypt_index_item_filename(index, key, &mut cursor);
        let raw_path = latin1_string(bytes.as_slice());
        let path = replace_char(raw_path.as_str(), '\\', '/');
        *pos = cursor;
        Ok(IndexEntry { size, timestamp, is_compressed, path })
    } else {
        match read_string_u8_0terminated(index, &mut cursor) {
            Ok(raw_path) => {
                let path = replace_char(raw_path.as_str(), '\\', '/');
                *pos = cursor;
                Ok(IndexEntry { size, timestamp, is_compressed, path })
            },
            Err(e) => Err(e),
        }
    }
}

/// How far the reading of an index has come.
#[derive(Debug)]
pub struct IndexCursor {
    /// Where the next record of the index starts.
    pub index_position: usize,
    /// Where the data of the next file starts.
    pub data_position: u64,
    /// The files read so far that are kept.
    pub files: Vec<RFile>,
    /// The entry that carries the notes, where one was read.
    pub notes: Option<RFile>,
    /// The entry that carries the settings, where one was read.
    pub settings: Option<RFile>,
}

/// What an `IndexCursor` holds.
pub struct IndexState {
    pub index_position: int,
    pub data_position: int,
    pub files: Seq<RFileView>,
    pub notes: Option<RFileView>,
    pub settings: Option<RFileView>,
}

/// What an optional file holds.
pub open spec fn optional_file_view(file: Option<RFile>) -> Option<RFileView> {
    match file {
        Some(f) => Some(f@),
        None => None,
    }
}

impl View for IndexCursor {
    type V = IndexState;

    open spec fn view(&self) -> IndexState {
        IndexState {
            index_position: self.index_position as int,
            data_position: self.data_position as int,
            files: file_views(self.files@),
            notes: optional_file_view(self.notes),
            settings: optional_file_view(self.settings),
        }
    }
}

/// The file that a record of the index describes: not loaded yet, with its data at `start`.
pub open spec fn entry_file(
    entry: IndexEntryView,
    start: u64,
    is_encrypted: Option<PFHVersion>,
) -> RFileView {
    RFileView {
        path: entry.path,
        timestamp: entry.timestamp,
        should_be_compressed: entry.is_compressed,
        should_be_encrypted: is_encrypted,
        data: FileDataView::OnDisk {
            start,
            size: entry.size,
            is_compressed: entry.is_compressed,
            is_encrypted,
        },
    }
}

/// True when a file with this path is to be kept: when no kinds are asked for, or when the
/// kind of the file is among those asked for.
pub open spec fn is_wanted(path: Seq<char>, types: Option<Seq<FileType>>) -> bool {
    match types {
        Some(t) => t.contains(classify(lowercase_of(path))),
        None => true,
    }
}

/// The state after the next record of the index was read. The data of the file starts where
/// the data of the file before it ends. A file that is wanted is kept: as the notes or the
/// settings where it has their reserved path, among the files otherwise.
pub open spec fn index_step(
    index: Seq<u8>,
    flags: PFHFlags,
    version: PFHVersion,
    types: Option<Seq<FileType>>,
    entries_after: u32,
    st: IndexState,
) -> core::result::Result<IndexState, RLibError> {
    match parse_index_entry(index, st.index_position, flags, entries_after) {
        Err(e) => Err(e),
        Ok((entry, next)) => {
            let data_next = st.data_position + padded_size(entry.size, flags);
            if data_next > u64::MAX {
                Err(RLibError::PackFileTooBig)
            } else {
                let is_encrypted = if flags.spec_contains(HAS_ENCRYPTED_DATA) {
                    Some(version)
                } else {
                    None
                };
                let file = entry_file(entry, st.data_position as u64, is_encrypted);
                let wanted = is_wanted(entry.path, types);
                let is_notes = entry.path == RESERVED_NAME_NOTES@;
                let is_settings = entry.path == RESERVED_NAME_SETTINGS@;
                Ok(
                    IndexState {
                        index_position: next,
                        data_position: data_next,
                        files: if wanted && !is_notes && !is_settings {
                            inserted(st.files, file)
                        } else {
                            st.files
                        },
                        notes: if wanted && is_notes {
                            Some(file)
                        } else {
                            st.notes
                        },
                        settings: if wanted && !is_notes && is_settings {
                            Some(file)
                        } else {
                            st.settings
                        },
                    },
                )
            }
        },
    }
}

/// The state after `remaining` more records of the index were read.
pub open spec fn index_steps(
    index: Seq<u8>,
    flags: PFHFlags,
    version: PFHVersion,
    types: Option<Seq<FileType>>,
    remaining: nat,
    st: IndexState,
) -> core::result::Result<IndexState, RLibError>
    decreases remaining,
{
    if remaining == 0 {
        Ok(st)
    } else {
        match index_step(index, flags, version, types, (remaining - 1) as u32, st) {
            Ok(next) => index_steps(index, flags, version, types, (remaining - 1) as nat, next),
            Err(e) => Err(e),
        }
    }
}

/// Reading records of the index keeps the paths of the files apart.
pub proof fn lemma_index_steps_unique(
    index: Seq<u8>,
    flags: PFHFlags,
    version: PFHVersion,
    types: Option<Seq<FileType>>,
    remaining: nat,
    st: IndexState,
)
    requires
        crate::pack::unique_paths(st.files),
        index_steps(index, flags, version, types, remaining, st) is Ok,
    ensures
        crate::pack::unique_paths(
            index_steps(index, flags, version, types, remaining, st)->Ok_0.files,
        ),
    decreases remaining,
{
    if remaining > 0 {
        let next = index_step(index, flags, version, types, (remaining - 1) as u32, st)->Ok_0;
        let entry = parse_index_entry(index, st.index_position, flags, (remaining - 1) as u32)->Ok_0.0;
        let is_encrypted = if flags.spec_contains(HAS_ENCRYPTED_DATA) {
            Some(version)
        } else {
            None
        };
        crate::pack::lemma_inserted_unique(
            st.files,
            entry_file(entry, st.data_position as u64, is_encrypted),
        );
        lemma_index_steps_unique(index, flags, version, types, (remaining - 1) as nat, next);
    }
}

/// The kinds of an optional list of kinds.
pub open spec fn types_view(types: Option<Vec<FileType>>) -> Option<Seq<FileType>> {
    match types {
        Some(t) => Some(t@),
        None => None,
    }
}

/// Tells whether a kind is in a list.
pub fn contains_type(types: &Vec<FileType>, t: FileType) -> (r: bool)
    ensures
        r == types@.contains(t),
{
    let mut i: usize = 0;
    while i < types.len()
        invariant
            i <= types@.len(),
            forall|j: int| 0 <= j < i ==> types@[j] != t,
        decreases types@.len() - i,
    {
        if types[i] == t {
            return true;
        }
        i = i + 1;
    }
    false
}

/// The number of bytes that the data of a file of `size` bytes takes in the pack.
pub fn padded(size: u32, flags: PFHFlags) -> (r: u64)
    ensures
        r == padded_size(size, flags),
{
    if flags.contains(HAS_EXTENDED_HEADER) && flags.contains(HAS_ENCRYPTED_DATA) && size % 8 > 0 {
        size as u64 + 8 - (size % 8) as u64
    } else {
        size as u64
    }
}

/// Reads the next record of the index and moves the cursor on. On failure the cursor stays
/// as it was.
#[verifier::rlimit(40)]
pub fn read_index_step(
    index: &[u8],
    flags: PFHFlags,
    version: PFHVersion,
    types: &Option<Vec<FileType>>,
    entries_after: u32,
    cursor: &mut IndexCursor,
) -> (r: Result<()>)
    ensures
        match index_step(index@, flags, version, types_view(*types), entries_after, old(cursor)@) {
            Ok(next) => r is Ok && final(cursor)@ == next,
            Err(e) => r == Err::<(), RLibError>(e) && final(cursor)@ == old(cursor)@,
        },
{
    let mut pos: usize = cursor.index_position;
    let entry = match read_index_entry(index, &mut pos, flags, entries_after) {
        Ok(entry) => entry,
        Err(e) => {
            return Err(e);
        },
    };
    let step: u64 = padded(entry.size, flags);
    if step > u64::MAX - cursor.data_position {
        return Err(RLibError::PackFileTooBig);
    }
    let is_encrypted: Option<PFHVersion> = if flags.contains(HAS_ENCRYPTED_DATA) {
        Some(version)
    } else {
        None
    };
    let wanted: bool = match types {
        Some(t) => contains_type(t, FileType::from_path(entry.path.as_str())),
        None => true,
    };
    let is_notes: bool = str_eq(entry.path.as_str(), RESERVED_NAME_NOTES);
    let is_settings: bool = str_eq(entry.path.as_str(), RESERVED_NAME_SETTINGS);
    let ghost entry_view = entry@;
    let file = RFile {
        path: entry.path,
        timestamp: entry.timestamp,
        should_be_compressed: entry.is_compressed,
        should_be_encrypted: is_encrypted,
        data: FileData::OnDisk {
            start: cursor.data_position,
            size: entry.size,
            is_compressed: entry.is_compressed,
            is_encrypted,
        },
    };
    assert(file@ == entry_file(entry_view, cursor.data_position, is_encrypted));
    if wanted {
        if is_notes {
            cursor.notes = Some(file);
        } else if is_settings {
            cursor.settings = Some(file);
        } else {
            insert_file(&mut cursor.files, file);
        }
    }
    cursor.index_position = pos;
    cursor.data_position = cursor.data_position + step;
    Ok(())
}

/// The bytes that the data of the files of `remaining` records takes, padding included:
/// the sum over the records that are read from `pos` on.
pub open spec fn padded_total(index: Seq<u8>, flags: PFHFlags, pos: int, remaining: nat) -> int
    decreases remaining,
{
    if remaining == 0 {
        0
    } else {
        match parse_index_entry(index, pos, flags, (remaining - 1) as u32) {
            Ok((entry, next)) => padded_size(entry.size, flags) + padded_total(
                index,
                flags,
                next,
                (remaining - 1) as nat,
            ),
            Err(_) => 0,
        }
    }
}

/// Reading the records of an index moves the position of the data on by the sizes of the
/// files, padding included, whether a file is kept or not.
pub proof fn lemma_index_steps_account(
    index: Seq<u8>,
    flags: PFHFlags,
    version: PFHVersion,
    types: Option<Seq<FileType>>,
    remaining: nat,
    st: IndexState,
)
    requires
        index_steps(index, flags, version, types, remaining, st) is Ok,
    ensures
        index_steps(index, flags, version, types, remaining, st)->Ok_0.data_position
            == st.data_position + padded_total(index, flags, st.index_position, remaining),
    decreases remaining,
{
    if remaining > 0 {
        let next = index_step(index, flags, version, types, (remaining - 1) as u32, st)->Ok_0;
        lemma_index_steps_account(index, flags, version, types, (remaining - 1) as nat, next);
    }
}

} // verus!
