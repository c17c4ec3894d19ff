//! Packs of version 0: a short header, and an index whose records hold the size and the
//! path of a file and nothing else.

use vstd::prelude::*;
use vstd::slice::slice_subrange;

use crate::binary::{le_u32, read_u32, u32_bytes, write_all, write_u32};
use crate::error::{RLibError, Result};
use crate::pack::index::{index_steps, IndexCursor, IndexState};
use crate::pack::pfh6::{
    lemma_pack_records_sizes, lemma_sorted_sizes, notes_of, pack_records, parse_names,
    read_index, read_names, read_stored_bytes, settings_of,
};
use crate::pack::save::{
    data_bytes, index_bytes, names_bytes, record_views, sort_records, sorted_records,
    write_data, write_index, write_names, SaveRecord, SaveRecordView,
};
use crate::pack::{
    PFHFlags, Pack, PackHeaderView, PackView, HAS_ENCRYPTED_DATA, HAS_ENCRYPTED_INDEX,
    HAS_EXTENDED_HEADER, HAS_INDEX_WITH_TIMESTAMPS,
};
use crate::text::string_from_utf8;

verus! {

/// The number of bytes of the header.
pub const PFH0_HEADER_SIZE: usize = 24;

/// The flags under which a record of the index holds the size and the path alone.
pub open spec fn bare_layout() -> PFHFlags {
    PFHFlags { bits: HAS_EXTENDED_HEADER }
}

/// The pack that the bytes of a pack of version 0 stand for, and the position where the
/// data of its last file ends. `before` is the header as the first eight bytes gave it.
///
/// The header holds four numbers behind those eight bytes: how many dependencies there are
/// and how many bytes their names take, then the same for the files and the index. The
/// files are not loaded. Whether the data ends where the pack ends is for the caller to
/// test.
pub open spec fn spec_read_pfh0(data: Seq<u8>, before: PackHeaderView) -> core::result::Result<
    (PackView, u64),
    RLibError,
> {
    if data.len() < 24 {
        Err(RLibError::PackFileHeaderNotComplete)
    } else {
        let dependencies_count = le_u32(data, 8);
        let dependencies_size = le_u32(data, 12);
        let files_count = le_u32(data, 16);
        let index_size = le_u32(data, 20);
        let index_start = 24 + dependencies_size;
        let first_data = index_start + index_size;
        if data.len() < first_data {
            Err(RLibError::PackFileIndexesNotComplete)
        } else {
            match parse_names(
                data.subrange(24, index_start),
                0,
                dependencies_count as nat,
                Seq::empty(),
            ) {
                Err(e) => Err(e),
                Ok(dependencies) => match index_steps(
                    data.subrange(index_start, first_data),
                    bare_layout(),
                    before.pfh_version,
                    None,
                    files_count as nat,
                    IndexState {
                        index_position: 0,
                        data_position: first_data,
                        files: Seq::empty(),
                        notes: None,
                        settings: None,
                    },
                ) {
                    Err(e) => Err(e),
                    Ok(st) => Ok(
                        (
                            PackView {
                                header: before,
                                dependencies,
                                files: st.files,
                                notes: notes_of(st.notes, data),
                                settings: settings_of(st.settings, data),
                            },
                            st.data_position as u64,
                        ),
                    ),
                },
            }
        }
    }
}

/// The bytes of the header of a pack of version 0.
pub open spec fn pfh0_header_bytes(
    header: PackHeaderView,
    dependencies_count: u32,
    dependencies_size: u32,
    files_count: u32,
    index_size: u32,
) -> Seq<u8> {
    header.pfh_version.spec_preamble() + u32_bytes(
        header.bitmask.bits | header.pfh_file_type.spec_value(),
    ) + u32_bytes(dependencies_count) + u32_bytes(dependencies_size) + u32_bytes(files_count)
        + u32_bytes(index_size)
}

/// True when no record is compressed.
pub open spec fn none_compressed(records: Seq<SaveRecordView>) -> bool {
    forall|i: int| 0 <= i < records.len() ==> !(#[trigger] records[i]).is_compressed
}

/// In a pack of version 0 that was read no two files have the same path.
pub proof fn lemma_read_pfh0_unique(data: Seq<u8>, before: PackHeaderView)
    requires
        spec_read_pfh0(data, before) is Ok,
    ensures
        crate::pack::unique_paths(spec_read_pfh0(data, before)->Ok_0.0.files),
{
    let dependencies_size = le_u32(data, 12);
    let files_count = le_u32(data, 16);
    let index_size = le_u32(data, 20);
    let index_start = 24 + dependencies_size;
    let first_data = index_start + index_size;
    crate::pack::index::lemma_index_steps_unique(
        data.subrange(index_start, first_data),
        bare_layout(),
        before.pfh_version,
        None,
        files_count as nat,
        IndexState {
            index_position: 0,
            data_position: first_data,
            files: Seq::empty(),
            notes: None,
            settings: None,
        },
    );
}

/// The bytes that a pack of version 0 is written as: header, names of the dependencies,
/// index, data, the files in the order of their paths, letters of either case alike. No
/// file may be compressed: the index has no place to say so.
pub open spec fn spec_write_pfh0(pack: PackView) -> core::result::Result<Seq<u8>, RLibError> {
    match pack_records(pack) {
        Err(e) => Err(e),
        Ok(records) => {
            let sorted = sorted_records(records);
            let names = names_bytes(pack.dependencies);
            let index = index_bytes(sorted, bare_layout());
            if !none_compressed(sorted) {
                Err(RLibError::FileCompressionPending)
            } else if pack.dependencies.len() > u32::MAX || names.len() > u32::MAX || sorted.len()
                > u32::MAX || index.len() > u32::MAX {
                Err(RLibError::PackFileTooBig)
            } else {
                Ok(
                    pfh0_header_bytes(
                        pack.header,
                        pack.dependencies.len() as u32,
                        names.len() as u32,
                        sorted.len() as u32,
                        index.len() as u32,
                    ) + names + index + data_bytes(sorted),
                )
            }
        },
    }
}

/// Tells whether no record is compressed.
fn check_none_compressed(records: &Vec<SaveRecord>) -> (r: bool)
    ensures
        r == none_compressed(record_views(records@)),
{
    let mut i: usize = 0;
    while i < records.len()
        invariant
            i <= records@.len(),
            forall|k: int| 0 <= k < i ==> !(#[trigger] record_views(records@)[k]).is_compressed,
        decreases records@.len() - i,
    {
        if records[i].is_compressed {
            assert(record_views(records@)[i as int].is_compressed);
            return false;
        }
        i = i + 1;
    }
    true
}

impl Pack {
    /// Reads a pack of version 0 from its bytes and gives the position where the data of
    /// its last file ends. The header is taken as it stands in `self`; the rest of `self`
    /// is replaced. On failure `self` stays as it was.
    #[verifier::rlimit(40)]
    pub fn read_pfh0(&mut self, data: &[u8]) -> (r: Result<u64>)
        ensures
            match spec_read_pfh0(data@, old(self).header@) {
                Ok((pack, end)) => r == Ok::<u64, RLibError>(end) && final(self)@ == pack
                    && crate::pack::unique_paths(pack.files),
                Err(e) => r == Err::<u64, RLibError>(e) && final(self)@ == old(self)@,
            },
    {
        proof {
            if spec_read_pfh0(data@, self.header@) is Ok {
                lemma_read_pfh0_unique(data@, self.header@);
            }
        }
        if data.len() < PFH0_HEADER_SIZE {
            return Err(RLibError::PackFileHeaderNotComplete);
        }
        let mut at: usize = 8;
        let dependencies_count: u32 = match read_u32(data, &mut at) {
            Ok(v) => v,
            Err(e) => {
                return Err(e);
            },
        };
        let dependencies_size: u32 = match read_u32(data, &mut at) {
            Ok(v) => v,
            Err(e) => {
                return Err(e);
            },
        };
        let files_count: u32 = match read_u32(data, &mut at) {
            Ok(v) => v,
            Err(e) => {
                return Err(e);
            },
        };
        let index_size: u32 = match read_u32(data, &mut at) {
            Ok(v) => v,
            Err(e) => {
                return Err(e);
            },
        };
        let first_data: u64 = PFH0_HEADER_SIZE as u64 + dependencies_size as u64 + index_size as u64;
        if (data.len() as u64) < first_data {
            return Err(RLibError::PackFileIndexesNotComplete);
        }
        let index_start: usize = PFH0_HEADER_SIZE + dependencies_size as usize;
        let names = slice_subrange(data, PFH0_HEADER_SIZE, index_start);
        let index = slice_subrange(data, index_start, index_start + index_size as usize);
        let dependencies: Vec<String> = match read_names(names, dependencies_count) {
            Ok(v) => v,
            Err(e) => {
                return Err(e);
            },
        };
        let cursor: IndexCursor = match read_index(
            index,
            PFHFlags { bits: HAS_EXTENDED_HEADER },
            self.header.pfh_version,
            &None,
            files_count,
            first_data,
        ) {
            Ok(v) => v,
            Err(e) => {
                return Err(e);
            },
        };
        let notes: Option<String> = match &cursor.notes {
            Some(file) => match read_stored_bytes(file, data) {
                Some(bytes) => string_from_utf8(bytes),
                None => None,
            },
            None => None,
        };
        let settings: Vec<u8> = match &cursor.settings {
            Some(file) => match read_stored_bytes(file, data) {
                Some(bytes) => bytes,
                None => Vec::new(),
            },
            None => Vec::new(),
        };
        self.dependencies = dependencies;
        self.files = cursor.files;
        self.notes = notes;
        self.settings = settings;
        Ok(cursor.data_position)
    }

    /// Writes the pack as a pack of version 0 behind what `buffer` holds. On failure
    /// nothing is written.
    #[verifier::rlimit(40)]
    pub fn write_pfh0(&self, buffer: &mut Vec<u8>) -> (r: Result<()>)
        ensures
            match spec_write_pfh0(self@) {
                Ok(bytes) => r is Ok && final(buffer)@ == old(buffer)@ + bytes,
                Err(e) => r == Err::<(), RLibError>(e) && final(buffer)@ == old(buffer)@,
            },
    {
        let records: Vec<SaveRecord> = match self.save_records() {
            Ok(v) => v,
            Err(e) => {
                return Err(e);
            },
        };
        let sorted: Vec<SaveRecord> = sort_records(records);
        assert(forall|i: int|
            0 <= i < sorted@.len() ==> (#[trigger] sorted@[i]).data@.len() <= u32::MAX) by {
            lemma_pack_records_sizes(self@);
            lemma_sorted_sizes(record_views(sorted@), pack_records(self@)->Ok_0);
            assert forall|i: int| 0 <= i < sorted@.len() implies (#[trigger] sorted@[i]).data@.len()
                <= u32::MAX by {
                assert(record_views(sorted@)[i].data.len() <= u32::MAX);
            }
        }
        if !check_none_compressed(&sorted) {
            return Err(RLibError::FileCompressionPending);
        }
        let mut names: Vec<u8> = Vec::new();
        write_names(&mut names, &self.dependencies);
        assert(names@ =~= names_bytes(self@.dependencies));
        let mut index: Vec<u8> = Vec::new();
        write_index(&mut index, &sorted, PFHFlags { bits: HAS_EXTENDED_HEADER });
        assert(index@ =~= index_bytes(record_views(sorted@), bare_layout()));
        if self.dependencies.len() > 0xFFFF_FFFF || names.len() > 0xFFFF_FFFF || sorted.len()
            > 0xFFFF_FFFF || index.len() > 0xFFFF_FFFF {
            return Err(RLibError::PackFileTooBig);
        }
        let ghost start = buffer@;
        self.header.pfh_version.write_preamble(buffer);
        write_u32(buffer, self.header.bitmask.bits | self.header.pfh_file_type.value());
        write_u32(buffer, self.dependencies.len() as u32);
        write_u32(buffer, names.len() as u32);
        write_u32(buffer, sorted.len() as u32);
        write_u32(buffer, index.len() as u32);
        let ghost header_part = pfh0_header_bytes(
            self.header@,
            self.dependencies@.len() as u32,
            names@.len() as u32,
            sorted@.len() as u32,
            index@.len() as u32,
        );
        assert(buffer@ =~= start + header_part);
        write_all(buffer, names.as_slice());
        write_all(buffer, index.as_slice());
        write_data(buffer, &sorted);
        assert(buffer@ =~= start + (header_part + names@ + index@ + data_bytes(
            record_views(sorted@),
        )));
        Ok(())
    }
}

} // verus!
