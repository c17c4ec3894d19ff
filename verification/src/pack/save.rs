//! What a pack is written from: one record for each file, in the order of writing.

use vstd::prelude::*;

use vstd::utf8::encode_utf8;

use crate::binary::{u32_bytes, write_all, write_string_u8, write_u32, write_u8};
use crate::error::{RLibError, Result};
use crate::pack::crypto::{decrypt_packed_file, decrypted_data};
use crate::pack::file_type::{classify, is_table_type, FileType};
use crate::pack::order::{entry_before, entry_le, lemma_entry_le_total, lemma_entry_le_transitive};
use crate::pack::{
    FileData, FileDataView, PFHFlags, RFile, RFileView, HAS_EXTENDED_HEADER,
    HAS_INDEX_WITH_TIMESTAMPS,
};
use crate::text::{lowercase_of, replace_char, replaced, to_lowercase};

verus! {

/// A file as it is written: its path as the pack stores it, with `\` between its parts,
/// the key it is sorted by, and its data.
#[derive(Debug)]
pub struct SaveRecord {
    pub key: String,
    pub path: String,
    pub timestamp: u32,
    pub is_compressed: bool,
    pub data: Vec<u8>,
}

/// What a `SaveRecord` holds.
pub struct SaveRecordView {
    pub key: Seq<char>,
    pub path: Seq<char>,
    pub timestamp: u32,
    pub is_compressed: bool,
    pub data: Seq<u8>,
}

impl View for SaveRecord {
    type V = SaveRecordView;

    open spec fn view(&self) -> SaveRecordView {
        SaveRecordView {
            key: self.key@,
            path: self.path@,
            timestamp: self.timestamp,
            is_compressed: self.is_compressed,
            data: self.data@,
        }
    }
}

/// What a list of records holds.
pub open spec fn record_views(records: Seq<SaveRecord>) -> Seq<SaveRecordView> {
    Seq::new(records.len(), |i: int| records[i]@)
}

/// True when `a` is written before `b`, or may be.
pub open spec fn record_le(a: SaveRecordView, b: SaveRecordView) -> bool {
    entry_le(a.key, a.path, b.key, b.path)
}

/// True when every record may be written before the one behind it.
pub open spec fn is_sorted(records: Seq<SaveRecordView>) -> bool {
    forall|i: int, j: int| 0 <= i <= j < records.len() ==> record_le(records[i], records[j])
}

/// The position that `x` takes in `sorted`: behind the last record that may be written
/// before it.
pub open spec fn insert_position(sorted: Seq<SaveRecordView>, x: SaveRecordView) -> int
    decreases sorted.len(),
{
    if sorted.len() == 0 {
        0
    } else if record_le(sorted.last(), x) {
        sorted.len() as int
    } else {
        insert_position(sorted.drop_last(), x)
    }
}

/// The records in the order of writing. Records that may be written in either order keep
/// the order they came in.
pub open spec fn sorted_records(records: Seq<SaveRecordView>) -> Seq<SaveRecordView>
    decreases records.len(),
{
    if records.len() == 0 {
        Seq::empty()
    } else {
        let rest = sorted_records(records.drop_last());
        rest.insert(insert_position(rest, records.last()), records.last())
    }
}

/// The position lies in the list; what stands before it may be written before `x`, as far
/// as the record just before it goes, and nothing behind it may.
pub proof fn lemma_insert_position(sorted: Seq<SaveRecordView>, x: SaveRecordView)
    ensures
        0 <= insert_position(sorted, x) <= sorted.len(),
        insert_position(sorted, x) > 0 ==> record_le(sorted[insert_position(sorted, x) - 1], x),
        forall|j: int|
            insert_position(sorted, x) <= j < sorted.len() ==> !record_le(#[trigger] sorted[j], x),
    decreases sorted.len(),
{
    if sorted.len() > 0 && !record_le(sorted.last(), x) {
        lemma_insert_position(sorted.drop_last(), x);
        assert forall|j: int| insert_position(sorted, x) <= j < sorted.len() implies !record_le(
            #[trigger] sorted[j],
            x,
        ) by {
            if j < sorted.len() - 1 {
                assert(sorted[j] == sorted.drop_last()[j]);
            }
        }
    }
}

/// Sorting gives the same records, sorted.
#[verifier::rlimit(40)]
pub proof fn lemma_sorted_records(records: Seq<SaveRecordView>)
    ensures
        is_sorted(sorted_records(records)),
        sorted_records(records).to_multiset() == records.to_multiset(),
        sorted_records(records).len() == records.len(),
    decreases records.len(),
{
    broadcast use vstd::seq_lib::group_to_multiset_ensures;

    if records.len() == 0 {
        assert(sorted_records(records) =~= records);
    } else {
        let x = records.last();
        let rest = sorted_records(records.drop_last());
        lemma_sorted_records(records.drop_last());
        lemma_insert_position(rest, x);
        let p = insert_position(rest, x);
        let out = rest.insert(p, x);
        assert forall|i: int, j: int| 0 <= i <= j < out.len() implies record_le(
            out[i],
            out[j],
        ) by {
            if i == j {
                lemma_entry_le_total(out[i].key, out[i].path, out[i].key, out[i].path);
            } else if j < p {
                assert(record_le(rest[i], rest[j]));
            } else if i > p {
                assert(record_le(rest[i - 1], rest[j - 1]));
            } else if i < p && j > p {
                assert(record_le(rest[i], rest[j - 1]));
            } else if j == p {
                assert(record_le(rest[i], rest[p - 1]));
                lemma_entry_le_transitive(
                    rest[i].key,
                    rest[i].path,
                    rest[p - 1].key,
                    rest[p - 1].path,
                    x.key,
                    x.path,
                );
            } else {
                assert(i == p && j > p);
                assert(!record_le(rest[j - 1], x));
                lemma_entry_le_total(x.key, x.path, rest[j - 1].key, rest[j - 1].path);
            }
        }
        assert(records =~= records.drop_last().push(x));
        assert(rest.insert(p, x).to_multiset() =~= rest.to_multiset().insert(x)) by {
            vstd::seq_lib::to_multiset_insert(rest, p, x);
        }
        assert(records.drop_last().push(x).to_multiset() =~= records.drop_last().to_multiset().insert(
            x,
        ));
    }
}

/// Puts the records in the order of writing.
#[verifier::rlimit(40)]
pub fn sort_records(records: Vec<SaveRecord>) -> (r: Vec<SaveRecord>)
    ensures
        record_views(r@) == sorted_records(record_views(records@)),
{
    let ghost input = record_views(records@);
    let n: usize = records.len();
    let mut source: Vec<SaveRecord> = records;
    let mut reversed: Vec<SaveRecord> = Vec::new();
    while source.len() > 0
        invariant
            source@.len() + reversed@.len() == n,
            n == input.len(),
            forall|k: int| 0 <= k < source@.len() ==> (#[trigger] source@[k])@ == input[k],
            forall|k: int|
                0 <= k < reversed@.len() ==> (#[trigger] reversed@[k])@ == input[n - 1 - k],
        decreases source@.len(),
    {
        match source.pop() {
            Some(x) => {
                reversed.push(x);
            },
            None => {},
        }
    }
    let mut out: Vec<SaveRecord> = Vec::new();
    assert(record_views(out@) =~= sorted_records(input.subrange(0, 0)));
    while reversed.len() > 0
        invariant
            reversed@.len() <= n == input.len(),
            forall|k: int|
                0 <= k < reversed@.len() ==> (#[trigger] reversed@[k])@ == input[n - 1 - k],
            record_views(out@) == sorted_records(input.subrange(0, n - reversed@.len())),
        decreases reversed@.len(),
    {
        let ghost done = n - reversed@.len();
        let ghost before = record_views(out@);
        match reversed.pop() {
            Some(x) => {
                proof {
                    assert(x@ == input[done]);
                    assert(input.subrange(0, done + 1).drop_last() =~= input.subrange(0, done));
                    assert(input.subrange(0, done + 1).last() == x@);
                }
                let mut pos: usize = out.len();
                assert(before.subrange(0, pos as int) =~= before);
                while pos > 0 && !entry_before(
                    out[pos - 1].key.as_str(),
                    out[pos - 1].path.as_str(),
                    x.key.as_str(),
                    x.path.as_str(),
                )
                    invariant
                        pos <= out@.len(),
                        before == record_views(out@),
                        insert_position(before, x@) == insert_position(
                            before.subrange(0, pos as int),
                            x@,
                        ),
                    decreases pos,
                {
                    proof {
                        let head = before.subrange(0, pos as int);
                        assert(head.last() == out@[pos - 1]@);
                        assert(head.drop_last() =~= before.subrange(0, pos - 1));
                    }
                    pos = pos - 1;
                }
                proof {
                    let head = before.subrange(0, pos as int);
                    if pos > 0 {
                        assert(head.last() == out@[pos - 1]@);
                    }
                    assert(insert_position(head, x@) == pos);
                }
                out.insert(pos, x);
                assert(record_views(out@) =~= before.insert(pos as int, x@));
            },
            None => {},
        }
    }
    assert(input.subrange(0, n as int) =~= input);
    out
}

/// The path as the pack stores it: with `\` between its parts.
pub open spec fn disk_path(path: Seq<char>) -> Seq<char> {
    replaced(path, '/', '\\')
}

/// True when the file is to be written compressed: when that is asked for and the file
/// holds no table. Tables are never compressed.
pub open spec fn save_target(file: RFileView) -> bool {
    file.should_be_compressed && !is_table_type(classify(lowercase_of(file.path)))
}

/// The record that a file is written from. The file must be in memory, and compressed
/// exactly where it is to be written compressed. Encrypted data is written decrypted.
pub open spec fn file_record(file: RFileView) -> core::result::Result<SaveRecordView, RLibError> {
    match file.data {
        FileDataView::OnDisk { .. } => Err(RLibError::FileDataNotInMemory),
        FileDataView::OnMemory { data, is_compressed, is_encrypted } => {
            if data.len() > u32::MAX {
                Err(RLibError::PackFileTooBig)
            } else if is_compressed != save_target(file) {
                Err(RLibError::FileCompressionPending)
            } else {
                Ok(
                    SaveRecordView {
                        key: lowercase_of(disk_path(file.path)),
                        path: disk_path(file.path),
                        timestamp: file.timestamp,
                        is_compressed,
                        data: if is_encrypted is Some {
                            decrypted_data(data)
                        } else {
                            data
                        },
                    },
                )
            }
        },
    }
}

/// The records of the files from position `i` on, behind the records `done`.
pub open spec fn file_records(
    files: Seq<RFileView>,
    i: int,
    done: Seq<SaveRecordView>,
) -> core::result::Result<Seq<SaveRecordView>, RLibError>
    decreases files.len() - i,
{
    if i < 0 || i >= files.len() {
        Ok(done)
    } else {
        match file_record(files[i]) {
            Ok(r) => file_records(files, i + 1, done.push(r)),
            Err(e) => Err(e),
        }
    }
}

/// The record of an entry that exists only while the pack is written.
pub open spec fn virtual_record(path: Seq<char>, data: Seq<u8>) -> SaveRecordView {
    SaveRecordView { key: lowercase_of(path), path, timestamp: 0, is_compressed: false, data }
}

/// The bytes of one record of the index.
pub open spec fn index_record_bytes(r: SaveRecordView, flags: PFHFlags) -> Seq<u8> {
    u32_bytes(r.data.len() as u32) + (if flags.spec_contains(HAS_INDEX_WITH_TIMESTAMPS) {
        u32_bytes(r.timestamp)
    } else {
        Seq::empty()
    }) + (if flags.spec_contains(HAS_EXTENDED_HEADER) {
        Seq::empty()
    } else {
        seq![if r.is_compressed { 1u8 } else { 0u8 }]
    }) + encode_utf8(r.path) + seq![0u8]
}

/// The bytes of the index: the records one behind the other.
pub open spec fn index_bytes(records: Seq<SaveRecordView>, flags: PFHFlags) -> Seq<u8>
    decreases records.len(),
{
    if records.len() == 0 {
        Seq::empty()
    } else {
        index_bytes(records.drop_last(), flags) + index_record_bytes(records.last(), flags)
    }
}

/// The data of the files, one behind the other.
pub open spec fn data_bytes(records: Seq<SaveRecordView>) -> Seq<u8>
    decreases records.len(),
{
    if records.len() == 0 {
        Seq::empty()
    } else {
        data_bytes(records.drop_last()) + records.last().data
    }
}

/// The bytes of a list of names, each ended by a zero byte.
pub open spec fn names_bytes(names: Seq<Seq<char>>) -> Seq<u8>
    decreases names.len(),
{
    if names.len() == 0 {
        Seq::empty()
    } else {
        names_bytes(names.drop_last()) + encode_utf8(names.last()) + seq![0u8]
    }
}

/// What is to be done with a file before the pack can be written.
#[derive(Clone, Copy, Debug, PartialEq, Eq, Structural)]
pub enum SaveAction {
    /// Nothing: the file can be written as it is.
    Ready,
    /// The data of the file is to be fetched from the backing source.
    Load,
    /// The data of the file is to be compressed.
    Compress,
    /// The data of the file is to be decompressed.
    Decompress,
}

/// What is to be done with a file before the pack can be written.
pub open spec fn save_action(file: RFileView) -> SaveAction {
    match file.data {
        FileDataView::OnDisk { .. } => SaveAction::Load,
        FileDataView::OnMemory { is_compressed, .. } => if is_compressed == save_target(file) {
            SaveAction::Ready
        } else if is_compressed {
            SaveAction::Decompress
        } else {
            SaveAction::Compress
        },
    }
}

impl RFile {
    /// Tells whether the file is to be written compressed.
    pub fn is_to_be_compressed(&self) -> (r: bool)
        ensures
            r == save_target(self@),
            is_table_type(classify(lowercase_of(self.path@))) ==> !r,
    {
        self.should_be_compressed && !FileType::from_path(self.path.as_str()).is_table()
    }

    /// Tells what is to be done with the file before the pack can be written. A file that
    /// holds a table is never to be compressed.
    pub fn save_action(&self) -> (r: SaveAction)
        ensures
            r == save_action(self@),
            is_table_type(classify(lowercase_of(self.path@))) ==> r != SaveAction::Compress,
    {
        match &self.data {
            FileData::OnDisk { .. } => SaveAction::Load,
            FileData::OnMemory { is_compressed, .. } => {
                let target: bool = self.is_to_be_compressed();
                if *is_compressed == target {
                    SaveAction::Ready
                } else if *is_compressed {
                    SaveAction::Decompress
                } else {
                    SaveAction::Compress
                }
            },
        }
    }

    /// Takes the data that compressing or decompressing the file gave. `is_compressed` tells
    /// which of the two was done. A file that is not in memory stays as it is.
    pub fn set_processed_data(&mut self, data: Vec<u8>, is_compressed: bool)
        ensures
            final(self).path == old(self).path,
            final(self).timestamp == old(self).timestamp,
            final(self).should_be_compressed == old(self).should_be_compressed,
            final(self).should_be_encrypted == old(self).should_be_encrypted,
            match old(self).data@ {
                FileDataView::OnDisk { .. } => final(self).data@ == old(self).data@,
                FileDataView::OnMemory { is_encrypted, .. } => final(self).data@
                    == (FileDataView::OnMemory { data: data@, is_compressed, is_encrypted }),
            },
    {
        let replaced: Option<FileData> = match &self.data {
            FileData::OnDisk { .. } => None,
            FileData::OnMemory { is_encrypted, .. } => Some(
                FileData::OnMemory { data, is_compressed, is_encrypted: *is_encrypted },
            ),
        };
        match replaced {
            Some(d) => {
                self.data = d;
            },
            None => {},
        }
    }

    /// The record that the file is written from. A file that holds a table gives a record
    /// that is not compressed, whatever was asked for.
    #[verifier::rlimit(40)]
    pub fn save_record(&self) -> (r: Result<SaveRecord>)
        ensures
            match file_record(self@) {
                Ok(record) => r is Ok && r->Ok_0@ == record,
                Err(e) => r == Err::<SaveRecord, RLibError>(e),
            },
            r is Ok && is_table_type(classify(lowercase_of(self.path@))) ==> !r->Ok_0.is_compressed,
    {
        match &self.data {
            FileData::OnDisk { .. } => Err(RLibError::FileDataNotInMemory),
            FileData::OnMemory { data, is_compressed, is_encrypted } => {
                if data.len() > 0xFFFF_FFFF {
                    return Err(RLibError::PackFileTooBig);
                }
                if *is_compressed != self.is_to_be_compressed() {
                    return Err(RLibError::FileCompressionPending);
                }
                let path = replace_char(self.path.as_str(), '/', '\\');
                let key = to_lowercase(path.as_str());
                let plain: Vec<u8> = if is_encrypted.is_some() {
                    decrypt_packed_file(data.as_slice())
                } else {
                    data.clone()
                };
                Ok(
                    SaveRecord {
                        key,
                        path,
                        timestamp: self.timestamp,
                        is_compressed: *is_compressed,
                        data: plain,
                    },
                )
            },
        }
    }
}

/// A file as it is in memory once the pack was written: it is no longer marked as
/// encrypted or as to be encrypted, it holds its data decrypted, and it is to be compressed
/// only where it was written compressed, so never where it holds a table.
pub open spec fn settled(file: RFileView) -> RFileView {
    RFileView {
        path: file.path,
        timestamp: file.timestamp,
        should_be_compressed: save_target(file),
        should_be_encrypted: None,
        data: match file.data {
            FileDataView::OnDisk { .. } => file.data,
            FileDataView::OnMemory { data, is_compressed, is_encrypted } => FileDataView::OnMemory {
                data: if is_encrypted is Some {
                    decrypted_data(data)
                } else {
                    data
                },
                is_compressed,
                is_encrypted: None,
            },
        },
    }
}

/// The files as they are in memory once the pack was written.
pub open spec fn settled_files(files: Seq<RFileView>) -> Seq<RFileView> {
    Seq::new(files.len(), |i: int| settled(files[i]))
}

/// Of a file that could be written, once the pack was written: it is marked neither as
/// encrypted nor as to be encrypted, it holds the data that was written, and where it holds
/// a table it is neither compressed nor to be compressed.
pub proof fn lemma_settled(file: RFileView)
    requires
        file_record(file) is Ok,
    ensures
        settled(file).should_be_encrypted is None,
        settled(file).data == (FileDataView::OnMemory {
            data: file_record(file)->Ok_0.data,
            is_compressed: file_record(file)->Ok_0.is_compressed,
            is_encrypted: None,
        }),
        settled(file).should_be_compressed == file_record(file)->Ok_0.is_compressed,
        is_table_type(classify(lowercase_of(file.path))) ==> !settled(file).should_be_compressed
            && !file_record(file)->Ok_0.is_compressed,
        file_record(settled(file)) == file_record(file),
        settled(settled(file)) == settled(file),
{
}

impl RFile {
    /// Brings the file into the state in which it is once the pack was written.
    pub fn settle(&mut self)
        ensures
            final(self)@ == settled(old(self)@),
    {
        let decrypted: Option<FileData> = match &self.data {
            FileData::OnDisk { .. } => None,
            FileData::OnMemory { data, is_compressed, is_encrypted } => {
                if is_encrypted.is_some() {
                    Some(
                        FileData::OnMemory {
                            data: decrypt_packed_file(data.as_slice()),
                            is_compressed: *is_compressed,
                            is_encrypted: None,
                        },
                    )
                } else {
                    None
                }
            },
        };
        self.should_be_compressed = self.is_to_be_compressed();
        self.should_be_encrypted = None;
        match decrypted {
            Some(d) => {
                self.data = d;
            },
            None => {},
        }
    }
}

/// Brings every file into the state in which it is once the pack was written.
pub fn settle_all(files: &mut Vec<RFile>)
    ensures
        crate::pack::file_views(final(files)@) == settled_files(
            crate::pack::file_views(old(files)@),
        ),
{
    let n: usize = files.len();
    let mut i: usize = 0;
    while i < n
        invariant
            i <= n == files@.len(),
            n == old(files)@.len(),
            forall|k: int| 0 <= k < i ==> (#[trigger] files@[k])@ == settled(old(files)@[k]@),
            forall|k: int| i <= k < n ==> #[trigger] files@[k] == old(files)@[k],
        decreases n - i,
    {
        files[i].settle();
        i = i + 1;
    }
    assert(crate::pack::file_views(files@) =~= settled_files(
        crate::pack::file_views(old(files)@),
    ));
}

/// The records of the files, in the order of the files.
pub fn collect_records(files: &Vec<RFile>) -> (r: Result<Vec<SaveRecord>>)
    ensures
        match file_records(crate::pack::file_views(files@), 0, Seq::empty()) {
            Ok(records) => r is Ok && record_views(r->Ok_0@) == records,
            Err(e) => r == Err::<Vec<SaveRecord>, RLibError>(e),
        },
{
    let mut out: Vec<SaveRecord> = Vec::new();
    let n: usize = files.len();
    let mut i: usize = 0;
    assert(record_views(out@) =~= Seq::<SaveRecordView>::empty());
    while i < n
        invariant
            i <= n == files@.len(),
            file_records(crate::pack::file_views(files@), 0, Seq::empty()) == file_records(
                crate::pack::file_views(files@),
                i as int,
                record_views(out@),
            ),
        decreases n - i,
    {
        let ghost before = record_views(out@);
        match files[i].save_record() {
            Ok(record) => {
                out.push(record);
                assert(record_views(out@) =~= before.push(record@));
            },
            Err(e) => {
                return Err(e);
            },
        }
        i = i + 1;
    }
    Ok(out)
}

/// Appends the index of the records.
#[verifier::rlimit(40)]
pub(crate) fn write_index(buffer: &mut Vec<u8>, records: &Vec<SaveRecord>, flags: PFHFlags)
    requires
        forall|i: int| 0 <= i < records@.len() ==> (#[trigger] records@[i]).data@.len() <= u32::MAX,
    ensures
        final(buffer)@ == old(buffer)@ + index_bytes(record_views(records@), flags),
{
    let n: usize = records.len();
    let mut i: usize = 0;
    assert(old(buffer)@ + index_bytes(record_views(records@).subrange(0, 0), flags) =~= old(
        buffer,
    )@);
    while i < n
        invariant
            i <= n == records@.len(),
            forall|k: int| 0 <= k < records@.len() ==> (#[trigger] records@[k]).data@.len() <= u32::MAX,
            buffer@ == old(buffer)@ + index_bytes(
                record_views(records@).subrange(0, i as int),
                flags,
            ),
        decreases n - i,
    {
        let record = &records[i];
        let ghost before = buffer@;
        proof {
            let views = record_views(records@);
            assert(views.subrange(0, i + 1).drop_last() =~= views.subrange(0, i as int));
            assert(views.subrange(0, i + 1).last() == record@);
        }
        write_u32(buffer, record.data.len() as u32);
        if flags.contains(HAS_INDEX_WITH_TIMESTAMPS) {
            write_u32(buffer, record.timestamp);
        }
        if !flags.contains(HAS_EXTENDED_HEADER) {
            write_u8(buffer, if record.is_compressed { 1 } else { 0 });
        }
        write_string_u8(buffer, record.path.as_str());
        write_u8(buffer, 0);
        assert(buffer@ =~= before + index_record_bytes(record@, flags));
        i = i + 1;
        assert(buffer@ =~= old(buffer)@ + index_bytes(
            record_views(records@).subrange(0, i as int),
            flags,
        ));
    }
    assert(record_views(records@).subrange(0, n as int) =~= record_views(records@));
}

/// Appends the data of the records.
pub fn write_data(buffer: &mut Vec<u8>, records: &Vec<SaveRecord>)
    ensures
        final(buffer)@ == old(buffer)@ + data_bytes(record_views(records@)),
{
    let n: usize = records.len();
    let mut i: usize = 0;
    assert(old(buffer)@ + data_bytes(record_views(records@).subrange(0, 0)) =~= old(buffer)@);
    while i < n
        invariant
            i <= n == records@.len(),
            buffer@ == old(buffer)@ + data_bytes(record_views(records@).subrange(0, i as int)),
        decreases n - i,
    {
        proof {
            let views = record_views(records@);
            assert(views.subrange(0, i + 1).drop_last() =~= views.subrange(0, i as int));
            assert(views.subrange(0, i + 1).last() == records@[i as int]@);
        }
        write_all(buffer, records[i].data.as_slice());
        i = i + 1;
        assert(buffer@ =~= old(buffer)@ + data_bytes(
            record_views(records@).subrange(0, i as int),
        ));
    }
    assert(record_views(records@).subrange(0, n as int) =~= record_views(records@));
}

/// Appends a list of names, each ended by a zero byte.
pub fn write_names(buffer: &mut Vec<u8>, names: &Vec<String>)
    ensures
        final(buffer)@ == old(buffer)@ + names_bytes(crate::pack::texts(names@)),
{
    let n: usize = names.len();
    let mut i: usize = 0;
    assert(old(buffer)@ + names_bytes(crate::pack::texts(names@).subrange(0, 0)) =~= old(buffer)@);
    while i < n
        invariant
            i <= n == names@.len(),
            buffer@ == old(buffer)@ + names_bytes(
                crate::pack::texts(names@).subrange(0, i as int),
            ),
        decreases n - i,
    {
        proof {
            let views = crate::pack::texts(names@);
            assert(views.subrange(0, i + 1).drop_last() =~= views.subrange(0, i as int));
            assert(views.subrange(0, i + 1).last() == names@[i as int]@);
        }
        write_string_u8(buffer, names[i].as_str());
        write_u8(buffer, 0);
        i = i + 1;
        assert(buffer@ =~= old(buffer)@ + names_bytes(
            crate::pack::texts(names@).subrange(0, i as int),
        ));
    }
    assert(crate::pack::texts(names@).subrange(0, n as int) =~= crate::pack::texts(names@));
}

/// The records of files stand in the order of the files, behind the records that were there
/// before.
pub proof fn lemma_file_records_index(
    files: Seq<RFileView>,
    i: int,
    done: Seq<SaveRecordView>,
    k: int,
)
    requires
        0 <= i <= k < files.len(),
        file_records(files, i, done) is Ok,
    ensures
        file_records(files, i, done)->Ok_0.len() == done.len() + files.len() - i,
        file_record(files[k]) is Ok,
        file_records(files, i, done)->Ok_0[done.len() + k - i] == file_record(files[k])->Ok_0,
    decreases files.len() - i,
{
    let r = file_record(files[i])->Ok_0;
    lemma_file_records_prefix(files, i + 1, done.push(r));
    if i < k {
        lemma_file_records_index(files, i + 1, done.push(r), k);
    } else {
        assert(done.push(r)[done.len() as int] == r);
    }
}

/// The records that were there before stay where they were.
pub proof fn lemma_file_records_prefix(files: Seq<RFileView>, i: int, done: Seq<SaveRecordView>)
    requires
        0 <= i <= files.len(),
        file_records(files, i, done) is Ok,
    ensures
        file_records(files, i, done)->Ok_0.len() == done.len() + files.len() - i,
        forall|j: int| 0 <= j < done.len() ==> file_records(files, i, done)->Ok_0[j] == done[j],
    decreases files.len() - i,
{
    if i < files.len() {
        let r = file_record(files[i])->Ok_0;
        lemma_file_records_prefix(files, i + 1, done.push(r));
        assert forall|j: int| 0 <= j < done.len() implies file_records(files, i, done)->Ok_0[j]
            == done[j] by {
            assert(done.push(r)[j] == done[j]);
        }
    }
}

/// Tables are never compressed: whatever is asked for, a file that holds a table is written
/// from a record that is not compressed, and the byte of the index that tells whether a
/// file is compressed is 0 for it.
pub proof fn lemma_tables_never_compressed(files: Seq<RFileView>, k: int, flags: PFHFlags)
    requires
        0 <= k < files.len(),
        file_records(files, 0, Seq::empty()) is Ok,
        is_table_type(classify(lowercase_of(files[k].path))),
    ensures
        !file_records(files, 0, Seq::empty())->Ok_0[k].is_compressed,
        !flags.spec_contains(HAS_EXTENDED_HEADER) && !flags.spec_contains(
            HAS_INDEX_WITH_TIMESTAMPS,
        ) ==> index_record_bytes(file_records(files, 0, Seq::empty())->Ok_0[k], flags)[4] == 0,
{
    lemma_file_records_index(files, 0, Seq::empty(), k);
}

} // verus!
