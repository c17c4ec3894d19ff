//! What holds of reading a pack and writing it together.

use vstd::multiset::Multiset;
use vstd::prelude::*;

use vstd::utf8::{decode_utf8, decode_utf8_encode_utf8, encode_utf8, valid_utf8};

use crate::binary::{
    first_zero, le_u32, lemma_subrange_join, lemma_u32_read_write, parse_string_u8_0padded,
    parse_string_u8_0terminated, zeros,
};
use crate::pack::file_type::{classify, is_table_type};
use crate::pack::index::{
    entry_file, index_step, index_steps, is_wanted, padded_size, padded_total,
    parse_index_entry, IndexEntryView, IndexState,
};
use crate::pack::order::lemma_entry_le_total;
use crate::pack::pfh6::parse_names;
use crate::pack::pfh6::{
    all_materialized, assembled, header_bytes, header_fault, materialized, notes_of,
    pack_records, saved_header, settings_of, spec_is_editable, spec_read_pfh6, spec_save_pfh6,
    stored_bytes, SaveOptions, SUBHEADER_MARK, SUBHEADER_VERSION,
};
use crate::pack::pfh0::{
    bare_layout, none_compressed, pfh0_header_bytes, spec_read_pfh0, spec_write_pfh0,
};
use crate::pack::pfh6::{data_start, footer_len, header_len};
use crate::pack::save::{
    data_bytes, disk_path, file_record, file_records, index_bytes, index_record_bytes, is_sorted,
    lemma_sorted_records, names_bytes, record_le, sorted_records, virtual_record, SaveRecordView,
};
use crate::pack::{
    lemma_position_from, new_header, position_of, preamble_version, spec_read, spec_save,
    FileDataView, PFHFileType, PFHFlags, PFHVersion, PackHeaderView, PackView, RFileView,
    FILE_TYPE_MASK, HAS_ENCRYPTED_DATA, HAS_ENCRYPTED_INDEX, HAS_EXTENDED_HEADER,
    HAS_INDEX_WITH_TIMESTAMPS, RESERVED_NAME_NOTES, RESERVED_NAME_SETTINGS,
};
use crate::text::{lowercase_of, replaced};

verus! {

/// True when every record must be written before those behind it: no two records may be
/// written in either order.
pub open spec fn is_strictly_sorted(records: Seq<SaveRecordView>) -> bool {
    forall|i: int, j: int|
        0 <= i < j < records.len() ==> record_le(records[i], records[j]) && !record_le(
            records[j],
            records[i],
        )
}

/// There is one order of writing: records that are sorted and are the records of a list in
/// which no two may be written in either order, are that list.
#[verifier::rlimit(40)]
pub proof fn lemma_sorted_unique(s: Seq<SaveRecordView>, t: Seq<SaveRecordView>)
    requires
        is_strictly_sorted(s),
        is_sorted(t),
        s.to_multiset() == t.to_multiset(),
    ensures
        s == t,
    decreases s.len(),
{
    broadcast use vstd::seq_lib::group_to_multiset_ensures;

    assert(s.len() == t.len()) by {
        vstd::seq_lib::to_multiset_len(s);
        vstd::seq_lib::to_multiset_len(t);
    }
    if s.len() == 0 {
        assert(s =~= t);
    } else {
        let n = s.len() as int;
        let m = s[n - 1];
        let last = t[n - 1];
        assert(s.contains(m));
        vstd::seq_lib::to_multiset_contains(s, m);
        vstd::seq_lib::to_multiset_contains(t, m);
        assert(t.to_multiset().count(m) > 0);
        assert(t.contains(m));
        let j = choose|j: int| 0 <= j < t.len() && t[j] == m;
        assert(t.contains(last));
        vstd::seq_lib::to_multiset_contains(s, last);
        vstd::seq_lib::to_multiset_contains(t, last);
        assert(s.to_multiset().count(last) > 0);
        assert(s.contains(last));
        let k = choose|k: int| 0 <= k < s.len() && s[k] == last;
        lemma_entry_le_total(m.key, m.path, m.key, m.path);
        if k < n - 1 {
            assert(!record_le(s[n - 1], s[k]));
            if j < n - 1 {
                assert(record_le(t[j], t[n - 1]));
            }
            assert(false);
        }
        assert(last == m);
        let s0 = s.drop_last();
        let t0 = t.drop_last();
        assert(s =~= s0.push(m));
        assert(t =~= t0.push(m));
        assert(s0.to_multiset() =~= t0.to_multiset()) by {
            vstd::seq_lib::to_multiset_build(s0, m);
            vstd::seq_lib::to_multiset_build(t0, m);
            assert(s0.push(m).to_multiset() =~= s0.to_multiset().insert(m));
            assert(t0.push(m).to_multiset() =~= t0.to_multiset().insert(m));
            assert forall|x: SaveRecordView| s0.to_multiset().count(x) == t0.to_multiset().count(
                x,
            ) by {
                assert(s0.to_multiset().insert(m).count(x) == t0.to_multiset().insert(m).count(x));
            }
        }
        assert(is_strictly_sorted(s0)) by {
            assert forall|a: int, b: int| 0 <= a < b < s0.len() implies record_le(s0[a], s0[b])
                && !record_le(s0[b], s0[a]) by {
                assert(s0[a] == s[a] && s0[b] == s[b]);
            }
        }
        assert(is_sorted(t0)) by {
            assert forall|a: int, b: int| 0 <= a <= b < t0.len() implies record_le(t0[a], t0[b]) by {
                assert(t0[a] == t[a] && t0[b] == t[b]);
            }
        }
        lemma_sorted_unique(s0, t0);
    }
}

/// The first zero byte at or behind a position lies at or behind it, within the buffer or
/// at its end, and no byte before it is zero.
pub proof fn lemma_first_zero(data: Seq<u8>, pos: int)
    requires
        0 <= pos <= data.len(),
    ensures
        pos <= first_zero(data, pos) <= data.len(),
        first_zero(data, pos) < data.len() ==> data[first_zero(data, pos)] == 0,
    decreases data.len() - pos,
{
    if pos < data.len() && data[pos] != 0 {
        lemma_first_zero(data, pos + 1);
    }
}

/// Writing back a text that was read up to its zero byte gives the bytes that were read.
pub proof fn lemma_terminated_read_write(data: Seq<u8>, pos: int)
    requires
        0 <= pos <= data.len(),
        parse_string_u8_0terminated(data, pos) is Ok,
    ensures
        ({
            let (text, next) = parse_string_u8_0terminated(data, pos)->Ok_0;
            &&& pos < next <= data.len()
            &&& encode_utf8(text) + seq![0u8] == data.subrange(pos, next)
        }),
{
    lemma_first_zero(data, pos);
    let end = first_zero(data, pos);
    let bytes = data.subrange(pos, end);
    decode_utf8_encode_utf8(bytes);
    assert(bytes + seq![0u8] =~= data.subrange(pos, end + 1));
}

/// Where reading `remaining` names from `pos` on ends, or -1 where they cannot be read.
pub open spec fn names_end(index: Seq<u8>, pos: int, remaining: nat) -> int
    decreases remaining,
{
    if remaining == 0 {
        pos
    } else {
        match parse_string_u8_0terminated(index, pos) {
            Ok((_, next)) => names_end(index, next, (remaining - 1) as nat),
            Err(_) => -1,
        }
    }
}

/// Writing back the names that were read gives the bytes that they were read from.
pub proof fn lemma_names_round_trip(
    index: Seq<u8>,
    pos: int,
    remaining: nat,
    names: Seq<Seq<char>>,
)
    requires
        0 <= pos <= index.len(),
        parse_names(index, pos, remaining, names) is Ok,
    ensures
        ({
            let read = parse_names(index, pos, remaining, names)->Ok_0;
            let end = names_end(index, pos, remaining);
            &&& pos <= end <= index.len()
            &&& read.len() == names.len() + remaining
            &&& names_bytes(read) == names_bytes(names) + index.subrange(pos, end)
        }),
    decreases remaining,
{
    if remaining == 0 {
        assert(names_bytes(names) + index.subrange(pos, pos) =~= names_bytes(names));
    } else {
        let (text, next) = parse_string_u8_0terminated(index, pos)->Ok_0;
        lemma_terminated_read_write(index, pos);
        lemma_names_round_trip(index, next, (remaining - 1) as nat, names.push(text));
        let end = names_end(index, pos, remaining);
        assert(names.push(text).drop_last() =~= names);
        assert(names_bytes(names.push(text)) == names_bytes(names) + encode_utf8(text) + seq![0u8]);
        lemma_subrange_join(index, pos, next, end);
        assert(names_bytes(names) + encode_utf8(text) + seq![0u8] + index.subrange(next, end)
            =~= names_bytes(names) + (index.subrange(pos, next) + index.subrange(next, end)));
    }
}

/// True for the flags of an index with nothing encrypted.
pub open spec fn is_plain(flags: PFHFlags) -> bool {
    &&& !flags.spec_contains(HAS_ENCRYPTED_INDEX)
    &&& !flags.spec_contains(HAS_ENCRYPTED_DATA)
}

/// Where the path of the record of the index at `pos` starts.
pub open spec fn path_start_of(pos: int, flags: PFHFlags) -> int {
    pos + 4 + (if flags.spec_contains(HAS_INDEX_WITH_TIMESTAMPS) { 4int } else { 0int }) + (
    if flags.spec_contains(HAS_EXTENDED_HEADER) { 0int } else { 1int })
}

/// The record that the file of a record of the index is written from, where the data of the
/// file starts at `start`.
pub open spec fn entry_record(entry: IndexEntryView, data: Seq<u8>, start: int) -> SaveRecordView {
    SaveRecordView {
        key: lowercase_of(disk_path(entry.path)),
        path: disk_path(entry.path),
        timestamp: entry.timestamp,
        is_compressed: entry.is_compressed,
        data: data.subrange(start, start + entry.size),
    }
}

/// The records that the files of an index are written from: those of `remaining` records
/// of the index from `pos` on, behind the records `done`. The data of the first file starts
/// at `start`.
pub open spec fn index_records(
    index: Seq<u8>,
    flags: PFHFlags,
    data: Seq<u8>,
    pos: int,
    remaining: nat,
    start: int,
    done: Seq<SaveRecordView>,
) -> Seq<SaveRecordView>
    decreases remaining,
{
    if remaining == 0 {
        done
    } else {
        match parse_index_entry(index, pos, flags, (remaining - 1) as u32) {
            Ok((entry, next)) => index_records(
                index,
                flags,
                data,
                next,
                (remaining - 1) as nat,
                start + padded_size(entry.size, flags),
                done.push(entry_record(entry, data, start)),
            ),
            Err(_) => done,
        }
    }
}

/// Where `remaining` records of the index from `pos` on end, or -1 where they cannot be
/// read.
pub open spec fn index_end(index: Seq<u8>, flags: PFHFlags, pos: int, remaining: nat) -> int
    decreases remaining,
{
    if remaining == 0 {
        pos
    } else {
        match parse_index_entry(index, pos, flags, (remaining - 1) as u32) {
            Ok((_, next)) => index_end(index, flags, next, (remaining - 1) as nat),
            Err(_) => -1,
        }
    }
}

/// True when the text holds no `/`.
pub open spec fn has_no_slash(text: Seq<char>) -> bool {
    forall|i: int| 0 <= i < text.len() ==> #[trigger] text[i] != '/'
}

/// True when the record of the index at `pos` is written as it is read: the byte that tells
/// whether the file is compressed, where there is one, is 0 or 1, and the path has no `/`.
pub open spec fn entry_is_canonical(index: Seq<u8>, pos: int, flags: PFHFlags) -> bool {
    let path_start = path_start_of(pos, flags);
    &&& 0 <= pos
    &&& path_start <= index.len()
    &&& (!flags.spec_contains(HAS_EXTENDED_HEADER) ==> index[path_start - 1] <= 1)
    &&& parse_string_u8_0terminated(index, path_start) is Ok
    &&& has_no_slash(parse_string_u8_0terminated(index, path_start)->Ok_0.0)
}

/// True when each of `remaining` records of the index from `pos` on is written as it is
/// read.
pub open spec fn entries_are_canonical(
    index: Seq<u8>,
    flags: PFHFlags,
    pos: int,
    remaining: nat,
) -> bool
    decreases remaining,
{
    if remaining == 0 {
        true
    } else {
        &&& entry_is_canonical(index, pos, flags)
        &&& parse_index_entry(index, pos, flags, (remaining - 1) as u32) is Ok
        &&& entries_are_canonical(
            index,
            flags,
            parse_index_entry(index, pos, flags, (remaining - 1) as u32)->Ok_0.1,
            (remaining - 1) as nat,
        )
    }
}

/// A path without `/` is the same after its `\` were made `/` and back.
pub proof fn lemma_path_back(raw: Seq<char>)
    requires
        has_no_slash(raw),
    ensures
        disk_path(replaced(raw, '\\', '/')) == raw,
{
    assert(disk_path(replaced(raw, '\\', '/')) =~= raw);
}

/// Writing back a record of the index that is written as it is read gives the bytes that
/// it was read from.
#[verifier::rlimit(40)]
pub proof fn lemma_entry_round_trip(
    index: Seq<u8>,
    pos: int,
    flags: PFHFlags,
    entries_after: u32,
    data: Seq<u8>,
    start: int,
)
    requires
        is_plain(flags),
        entry_is_canonical(index, pos, flags),
        parse_index_entry(index, pos, flags, entries_after) is Ok,
        0 <= start,
        start + parse_index_entry(index, pos, flags, entries_after)->Ok_0.0.size <= data.len(),
    ensures
        ({
            let (entry, next) = parse_index_entry(index, pos, flags, entries_after)->Ok_0;
            &&& pos < next <= index.len()
            &&& index_record_bytes(entry_record(entry, data, start), flags) == index.subrange(
                pos,
                next,
            )
        }),
{
    let (entry, next) = parse_index_entry(index, pos, flags, entries_after)->Ok_0;
    let timestamps = flags.spec_contains(HAS_INDEX_WITH_TIMESTAMPS);
    let extended = flags.spec_contains(HAS_EXTENDED_HEADER);
    let after_timestamp = if timestamps { pos + 8 } else { pos + 4 };
    let path_start = path_start_of(pos, flags);
    let raw = parse_string_u8_0terminated(index, path_start)->Ok_0.0;
    lemma_u32_read_write(index, pos);
    if timestamps {
        lemma_u32_read_write(index, pos + 4);
    }
    lemma_terminated_read_write(index, path_start);
    lemma_path_back(raw);
    let record = entry_record(entry, data, start);
    assert(record.data.len() == entry.size);
    assert(record.path == raw);
    let size_bytes = index.subrange(pos, pos + 4);
    let time_bytes = if timestamps { index.subrange(pos + 4, pos + 8) } else { Seq::empty() };
    let flag_bytes = if extended {
        Seq::empty()
    } else {
        seq![if entry.is_compressed { 1u8 } else { 0u8 }]
    };
    assert(time_bytes =~= index.subrange(pos + 4, after_timestamp));
    assert(flag_bytes =~= index.subrange(after_timestamp, path_start));
    lemma_subrange_join(index, pos, pos + 4, after_timestamp);
    lemma_subrange_join(index, pos, after_timestamp, path_start);
    lemma_subrange_join(index, pos, path_start, next);
    assert(index_record_bytes(record, flags) =~= size_bytes + time_bytes + flag_bytes + (
    encode_utf8(raw) + seq![0u8]));
}

/// Writing back the index and the data of the files that were read gives the bytes that
/// they were read from, where each record of the index is written as it is read.
#[verifier::rlimit(40)]
pub proof fn lemma_index_round_trip(
    index: Seq<u8>,
    flags: PFHFlags,
    data: Seq<u8>,
    pos: int,
    remaining: nat,
    start: int,
    done: Seq<SaveRecordView>,
)
    requires
        is_plain(flags),
        0 <= pos <= index.len(),
        0 <= start,
        entries_are_canonical(index, flags, pos, remaining),
        start + padded_total(index, flags, pos, remaining) <= data.len(),
    ensures
        ({
            let records = index_records(index, flags, data, pos, remaining, start, done);
            let end = index_end(index, flags, pos, remaining);
            let total = padded_total(index, flags, pos, remaining);
            &&& pos <= end <= index.len()
            &&& 0 <= total
            &&& records.len() == done.len() + remaining
            &&& index_bytes(records, flags) == index_bytes(done, flags) + index.subrange(pos, end)
            &&& data_bytes(records) == data_bytes(done) + data.subrange(start, start + total)
        }),
    decreases remaining,
{
    if remaining == 0 {
        assert(index_bytes(done, flags) + index.subrange(pos, pos) =~= index_bytes(done, flags));
        assert(data_bytes(done) + data.subrange(start, start) =~= data_bytes(done));
    } else {
        let (entry, next) = parse_index_entry(index, pos, flags, (remaining - 1) as u32)->Ok_0;
        let rest = padded_total(index, flags, next, (remaining - 1) as nat);
        lemma_padded_total_positive(index, flags, next, (remaining - 1) as nat);
        lemma_entry_round_trip(index, pos, flags, (remaining - 1) as u32, data, start);
        let record = entry_record(entry, data, start);
        let pushed = done.push(record);
        lemma_index_round_trip(
            index,
            flags,
            data,
            next,
            (remaining - 1) as nat,
            start + entry.size,
            pushed,
        );
        let end = index_end(index, flags, pos, remaining);
        let total = padded_total(index, flags, pos, remaining);
        assert(pushed.drop_last() =~= done);
        assert(index_bytes(pushed, flags) == index_bytes(done, flags) + index.subrange(pos, next));
        assert(data_bytes(pushed) == data_bytes(done) + data.subrange(start, start + entry.size));
        lemma_subrange_join(index, pos, next, end);
        lemma_subrange_join(data, start, start + entry.size, start + total);
        assert(index_bytes(done, flags) + index.subrange(pos, next) + index.subrange(next, end)
            =~= index_bytes(done, flags) + (index.subrange(pos, next) + index.subrange(next, end)));
        assert(data_bytes(done) + data.subrange(start, start + entry.size) + data.subrange(
            start + entry.size,
            start + total,
        ) =~= data_bytes(done) + (data.subrange(start, start + entry.size) + data.subrange(
            start + entry.size,
            start + total,
        )));
    }
}

/// The data of files takes no less than nothing.
pub proof fn lemma_padded_total_positive(index: Seq<u8>, flags: PFHFlags, pos: int, remaining: nat)
    ensures
        padded_total(index, flags, pos, remaining) >= 0,
    decreases remaining,
{
    if remaining > 0 {
        match parse_index_entry(index, pos, flags, (remaining - 1) as u32) {
            Ok((_, next)) => {
                lemma_padded_total_positive(index, flags, next, (remaining - 1) as nat);
            },
            Err(_) => {},
        }
    }
}

/// The record that a file that is still in the source `data` is written from, once its
/// data is fetched.
pub open spec fn lazy_record(file: RFileView, data: Seq<u8>) -> SaveRecordView {
    SaveRecordView {
        key: lowercase_of(disk_path(file.path)),
        path: disk_path(file.path),
        timestamp: file.timestamp,
        is_compressed: match file.data {
            FileDataView::OnDisk { is_compressed, .. } => is_compressed,
            FileDataView::OnMemory { is_compressed, .. } => is_compressed,
        },
        data: match file.data {
            FileDataView::OnDisk { start, size, .. } => data.subrange(start as int, start + size),
            FileDataView::OnMemory { data, .. } => data,
        },
    }
}

/// The records that files that are still in the source are written from.
pub open spec fn lazy_records(files: Seq<RFileView>, data: Seq<u8>) -> Seq<SaveRecordView> {
    Seq::new(files.len(), |i: int| lazy_record(files[i], data))
}

/// True when a file that is still in the source can be written once its data is fetched:
/// it is as the index holds it, its data lies in the source, and it is not a compressed
/// table.
pub open spec fn is_ready(file: RFileView, data: Seq<u8>) -> bool {
    match file.data {
        FileDataView::OnDisk { start, size, is_compressed, is_encrypted } => {
            &&& start + size <= data.len()
            &&& is_encrypted is None
            &&& file.should_be_compressed == is_compressed
            &&& file.should_be_encrypted is None
            &&& !(is_compressed && is_table_type(classify(lowercase_of(file.path))))
        },
        FileDataView::OnMemory { .. } => false,
    }
}

/// A file that can be written once its data is fetched is written from its record.
pub proof fn lemma_record_of_ready(file: RFileView, data: Seq<u8>)
    requires
        is_ready(file, data),
    ensures
        file_record(materialized(file, data)) == Ok::<SaveRecordView, crate::error::RLibError>(
            lazy_record(file, data),
        ),
{
}

/// Files that can be written once their data is fetched are written from their records.
pub proof fn lemma_records_of_ready(
    files: Seq<RFileView>,
    data: Seq<u8>,
    i: int,
    done: Seq<SaveRecordView>,
)
    requires
        0 <= i <= files.len(),
        forall|k: int| 0 <= k < files.len() ==> is_ready(#[trigger] files[k], data),
    ensures
        file_records(all_materialized(files, data), i, done) == Ok::<
            Seq<SaveRecordView>,
            crate::error::RLibError,
        >(done + lazy_records(files, data).subrange(i, files.len() as int)),
    decreases files.len() - i,
{
    let fetched = all_materialized(files, data);
    if i < files.len() {
        lemma_record_of_ready(files[i], data);
        let r = lazy_record(files[i], data);
        lemma_records_of_ready(files, data, i + 1, done.push(r));
        assert(done.push(r) + lazy_records(files, data).subrange(i + 1, files.len() as int)
            =~= done + lazy_records(files, data).subrange(i, files.len() as int));
    } else {
        assert(done + lazy_records(files, data).subrange(i, files.len() as int) =~= done);
    }
}

/// The records of an index stand behind the records that were there before.
pub proof fn lemma_index_records_prefix(
    index: Seq<u8>,
    flags: PFHFlags,
    data: Seq<u8>,
    pos: int,
    remaining: nat,
    start: int,
    done: Seq<SaveRecordView>,
)
    ensures
        ({
            let records = index_records(index, flags, data, pos, remaining, start, done);
            &&& records.len() >= done.len()
            &&& forall|i: int| 0 <= i < done.len() ==> records[i] == done[i]
        }),
    decreases remaining,
{
    if remaining > 0 {
        match parse_index_entry(index, pos, flags, (remaining - 1) as u32) {
            Ok((entry, next)) => {
                let pushed = done.push(entry_record(entry, data, start));
                lemma_index_records_prefix(
                    index,
                    flags,
                    data,
                    next,
                    (remaining - 1) as nat,
                    start + padded_size(entry.size, flags),
                    pushed,
                );
                assert forall|i: int| 0 <= i < done.len() implies index_records(
                    index,
                    flags,
                    data,
                    pos,
                    remaining,
                    start,
                    done,
                )[i] == done[i] by {
                    assert(pushed[i] == done[i]);
                }
            },
            Err(_) => {},
        }
    }
}

/// The path of a record as a pack holds it in memory: with `/` between its parts.
pub open spec fn memory_path(record: SaveRecordView) -> Seq<char> {
    replaced(record.path, '\\', '/')
}

/// True when a record that was read can be written: the entries that carry the notes and
/// the settings are not compressed and have no timestamp, the notes are text, and no table
/// is compressed.
pub open spec fn record_is_ready(record: SaveRecordView) -> bool {
    if memory_path(record) == RESERVED_NAME_NOTES@ {
        !record.is_compressed && record.timestamp == 0 && valid_utf8(record.data)
    } else if memory_path(record) == RESERVED_NAME_SETTINGS@ {
        !record.is_compressed && record.timestamp == 0
    } else {
        !(record.is_compressed && is_table_type(classify(lowercase_of(memory_path(record)))))
    }
}

/// The records that the state of a reading stands for: those of the files, then that of the
/// notes and that of the settings where they were read.
pub open spec fn state_records(st: IndexState, data: Seq<u8>) -> Seq<SaveRecordView> {
    let files = lazy_records(st.files, data);
    let with_notes = match st.notes {
        Some(f) => files.push(lazy_record(f, data)),
        None => files,
    };
    match st.settings {
        Some(f) => with_notes.push(lazy_record(f, data)),
        None => with_notes,
    }
}

/// True when the state of a reading stands for the records `done` and every file of it can
/// be written.
pub open spec fn state_is_good(st: IndexState, data: Seq<u8>, done: Seq<SaveRecordView>) -> bool {
    &&& state_records(st, data).to_multiset() == done.to_multiset()
    &&& forall|k: int|
        0 <= k < st.files.len() ==> is_ready(#[trigger] st.files[k], data) && st.files[k].path
            != RESERVED_NAME_NOTES@ && st.files[k].path != RESERVED_NAME_SETTINGS@
    &&& st.notes matches Some(f) ==> f.path == RESERVED_NAME_NOTES@ && is_ready(f, data)
        && !lazy_record(f, data).is_compressed && f.timestamp == 0 && valid_utf8(
        lazy_record(f, data).data,
    )
    &&& st.settings matches Some(f) ==> f.path == RESERVED_NAME_SETTINGS@ && is_ready(f, data)
        && !lazy_record(f, data).is_compressed && f.timestamp == 0
}

/// True when the key of every record is its path in lower case.
pub open spec fn keys_follow_paths(records: Seq<SaveRecordView>) -> bool {
    forall|i: int| 0 <= i < records.len() ==> (#[trigger] records[i]).key == lowercase_of(records[i].path)
}

/// A path that no file has is not found.
pub proof fn lemma_fresh_position(files: Seq<RFileView>, path: Seq<char>)
    requires
        forall|k: int| 0 <= k < files.len() ==> (#[trigger] files[k]).path != path,
    ensures
        position_of(files, path) == files.len(),
{
    lemma_position_from(files, path, 0);
}

/// A path with `/` between its parts and no `\` is the same after its `/` were made `\`
/// and back.
pub proof fn lemma_path_forth(raw: Seq<char>)
    ensures
        replaced(disk_path(replaced(raw, '\\', '/')), '\\', '/') == replaced(raw, '\\', '/'),
{
    assert(replaced(disk_path(replaced(raw, '\\', '/')), '\\', '/') =~= replaced(raw, '\\', '/'));
}

/// In a list without two records that may be written in either order, no record has the
/// path of a record before it.
pub proof fn lemma_strict_paths(records: Seq<SaveRecordView>, i: int, j: int)
    requires
        is_strictly_sorted(records),
        keys_follow_paths(records),
        0 <= i < j < records.len(),
    ensures
        records[i].path != records[j].path,
{
    if records[i].path == records[j].path {
        assert(records[i].key == lowercase_of(records[i].path));
        assert(records[j].key == lowercase_of(records[j].path));
        lemma_entry_le_total(
            records[i].key,
            records[i].path,
            records[j].key,
            records[j].path,
        );
        assert(record_le(records[i], records[j]) && !record_le(records[j], records[i]));
        assert(record_le(records[j], records[i]) == record_le(records[i], records[j]));
    }
}

/// The reserved paths hold no `/` and no `\`, and differ.
pub proof fn lemma_reserved_paths()
    ensures
        disk_path(RESERVED_NAME_NOTES@) == RESERVED_NAME_NOTES@,
        disk_path(RESERVED_NAME_SETTINGS@) == RESERVED_NAME_SETTINGS@,
        replaced(RESERVED_NAME_NOTES@, '\\', '/') == RESERVED_NAME_NOTES@,
        replaced(RESERVED_NAME_SETTINGS@, '\\', '/') == RESERVED_NAME_SETTINGS@,
        RESERVED_NAME_NOTES@ != RESERVED_NAME_SETTINGS@,
{
    reveal_strlit("notes.rpfm_reserved");
    reveal_strlit("settings.rpfm_reserved");
    let n = RESERVED_NAME_NOTES@;
    let s = RESERVED_NAME_SETTINGS@;
    assert(n.len() == 19);
    assert(s.len() == 22);
    assert(disk_path(n) =~= n);
    assert(disk_path(s) =~= s);
    assert(replaced(n, '\\', '/') =~= n);
    assert(replaced(s, '\\', '/') =~= s);
}

/// The records with that of `file` among them, where there is a file.
pub open spec fn with_record(
    records: Multiset<SaveRecordView>,
    file: Option<RFileView>,
    data: Seq<u8>,
) -> Multiset<SaveRecordView> {
    match file {
        Some(f) => records.insert(lazy_record(f, data)),
        None => records,
    }
}

/// The records that a state stands for are those of its files, of its notes and of its
/// settings.
pub proof fn lemma_state_multiset(st: IndexState, data: Seq<u8>)
    ensures
        state_records(st, data).to_multiset() == with_record(
            with_record(lazy_records(st.files, data).to_multiset(), st.notes, data),
            st.settings,
            data,
        ),
{
    broadcast use vstd::seq_lib::group_to_multiset_ensures;

    let files = lazy_records(st.files, data);
    let with_notes = match st.notes {
        Some(f) => files.push(lazy_record(f, data)),
        None => files,
    };
    match st.notes {
        Some(f) => {
            vstd::seq_lib::to_multiset_build(files, lazy_record(f, data));
        },
        None => {},
    }
    match st.settings {
        Some(f) => {
            vstd::seq_lib::to_multiset_build(with_notes, lazy_record(f, data));
        },
        None => {},
    }
    assert(state_records(st, data).to_multiset() =~= with_record(
        with_record(files.to_multiset(), st.notes, data),
        st.settings,
        data,
    ));
}

/// Every record that a state stands for is among the records that it is good for.
pub proof fn lemma_state_member(
    st: IndexState,
    data: Seq<u8>,
    done: Seq<SaveRecordView>,
    x: SaveRecordView,
)
    requires
        state_records(st, data).to_multiset() == done.to_multiset(),
        state_records(st, data).contains(x),
    ensures
        done.contains(x),
{
    vstd::seq_lib::to_multiset_contains(state_records(st, data), x);
    vstd::seq_lib::to_multiset_contains(done, x);
}

/// Reading one more record of the index keeps the state good: the state then stands for
/// the records before and the record that was read.
#[verifier::rlimit(40)]
pub proof fn lemma_step_records(
    index: Seq<u8>,
    flags: PFHFlags,
    version: PFHVersion,
    data: Seq<u8>,
    entries_after: u32,
    st: IndexState,
    done: Seq<SaveRecordView>,
)
    requires
        is_plain(flags),
        entry_is_canonical(index, st.index_position, flags),
        parse_index_entry(index, st.index_position, flags, entries_after) is Ok,
        0 <= st.data_position,
        st.data_position + parse_index_entry(
            index,
            st.index_position,
            flags,
            entries_after,
        )->Ok_0.0.size <= data.len(),
        data.len() <= u64::MAX,
        state_is_good(st, data, done),
        record_is_ready(
            entry_record(
                parse_index_entry(index, st.index_position, flags, entries_after)->Ok_0.0,
                data,
                st.data_position,
            ),
        ),
        forall|i: int|
            0 <= i < done.len() ==> (#[trigger] done[i]).path != disk_path(
                parse_index_entry(index, st.index_position, flags, entries_after)->Ok_0.0.path,
            ),
    ensures
        index_step(index, flags, version, None, entries_after, st) is Ok,
        ({
            let (entry, next) = parse_index_entry(
                index,
                st.index_position,
                flags,
                entries_after,
            )->Ok_0;
            let after = index_step(index, flags, version, None, entries_after, st)->Ok_0;
            &&& after.index_position == next
            &&& after.data_position == st.data_position + entry.size
            &&& state_is_good(
                after,
                data,
                done.push(entry_record(entry, data, st.data_position)),
            )
        }),
{
    broadcast use vstd::seq_lib::group_to_multiset_ensures;

    let (entry, next) = parse_index_entry(index, st.index_position, flags, entries_after)->Ok_0;
    let r = entry_record(entry, data, st.data_position);
    let file = entry_file(entry, st.data_position as u64, None);
    let after = index_step(index, flags, version, None, entries_after, st)->Ok_0;
    let path_start = path_start_of(st.index_position, flags);
    let raw = parse_string_u8_0terminated(index, path_start)->Ok_0.0;
    assert(entry.path == replaced(raw, '\\', '/'));
    lemma_path_forth(raw);
    assert(memory_path(r) == entry.path);
    assert(lazy_record(file, data) == r);
    lemma_reserved_paths();
    lemma_state_multiset(st, data);
    lemma_state_multiset(after, data);
    vstd::seq_lib::to_multiset_build(done, r);
    let records = state_records(st, data);
    let files = lazy_records(st.files, data);
    // No file of the state has the path of the record.
    assert forall|k: int| 0 <= k < st.files.len() implies (#[trigger] st.files[k]).path
        != entry.path by {
        let x = lazy_record(st.files[k], data);
        assert(records[k] == x);
        assert(records.contains(x));
        lemma_state_member(st, data, done, x);
        let i = choose|i: int| 0 <= i < done.len() && done[i] == x;
        assert(done[i].path != disk_path(entry.path));
    }
    if st.notes is Some {
        let x = lazy_record(st.notes->Some_0, data);
        assert(records[st.files.len() as int] == x);
        assert(records.contains(x));
        lemma_state_member(st, data, done, x);
        let i = choose|i: int| 0 <= i < done.len() && done[i] == x;
        assert(done[i].path != disk_path(entry.path));
        assert(entry.path != RESERVED_NAME_NOTES@);
    }
    if st.settings is Some {
        let x = lazy_record(st.settings->Some_0, data);
        assert(records[records.len() - 1] == x);
        assert(records.contains(x));
        lemma_state_member(st, data, done, x);
        let i = choose|i: int| 0 <= i < done.len() && done[i] == x;
        assert(done[i].path != disk_path(entry.path));
        assert(entry.path != RESERVED_NAME_SETTINGS@);
    }
    assert(is_wanted(entry.path, None));
    if entry.path == RESERVED_NAME_NOTES@ {
        assert(after.files == st.files);
        assert(after.notes == Some(file));
    } else if entry.path == RESERVED_NAME_SETTINGS@ {
        assert(after.files == st.files);
        assert(after.settings == Some(file));
    } else {
        lemma_fresh_position(st.files, entry.path);
        assert(after.files == st.files.push(file));
        assert(lazy_records(after.files, data) =~= files.push(r));
        vstd::seq_lib::to_multiset_build(files, r);
        assert forall|k: int| 0 <= k < after.files.len() implies is_ready(
            #[trigger] after.files[k],
            data,
        ) && after.files[k].path != RESERVED_NAME_NOTES@ && after.files[k].path
            != RESERVED_NAME_SETTINGS@ by {
            if k < st.files.len() {
                assert(after.files[k] == st.files[k]);
            }
        }
    }
    assert(state_records(after, data).to_multiset() =~= done.to_multiset().insert(r));
}

/// The key of every record of an index is its path in lower case.
pub proof fn lemma_index_records_keys(
    index: Seq<u8>,
    flags: PFHFlags,
    data: Seq<u8>,
    pos: int,
    remaining: nat,
    start: int,
    done: Seq<SaveRecordView>,
)
    requires
        keys_follow_paths(done),
    ensures
        keys_follow_paths(index_records(index, flags, data, pos, remaining, start, done)),
    decreases remaining,
{
    if remaining > 0 {
        match parse_index_entry(index, pos, flags, (remaining - 1) as u32) {
            Ok((entry, next)) => {
                let pushed = done.push(entry_record(entry, data, start));
                assert forall|i: int| 0 <= i < pushed.len() implies (#[trigger] pushed[i]).key
                    == lowercase_of(pushed[i].path) by {
                    if i < done.len() {
                        assert(pushed[i] == done[i]);
                    }
                }
                lemma_index_records_keys(
                    index,
                    flags,
                    data,
                    next,
                    (remaining - 1) as nat,
                    start + padded_size(entry.size, flags),
                    pushed,
                );
            },
            Err(_) => {},
        }
    }
}

/// Reading the records of an index keeps the state good: in the end the state stands for
/// the records of the index, where those can be written and no two of them may be written
/// in either order.
#[verifier::rlimit(40)]
pub proof fn lemma_steps_records(
    index: Seq<u8>,
    flags: PFHFlags,
    version: PFHVersion,
    data: Seq<u8>,
    remaining: nat,
    st: IndexState,
    done: Seq<SaveRecordView>,
)
    requires
        is_plain(flags),
        0 <= st.index_position <= index.len(),
        entries_are_canonical(index, flags, st.index_position, remaining),
        0 <= st.data_position,
        st.data_position + padded_total(index, flags, st.index_position, remaining) <= data.len(),
        data.len() <= u64::MAX,
        state_is_good(st, data, done),
        keys_follow_paths(done),
        is_strictly_sorted(
            index_records(index, flags, data, st.index_position, remaining, st.data_position, done),
        ),
        forall|i: int|
            0 <= i < index_records(
                index,
                flags,
                data,
                st.index_position,
                remaining,
                st.data_position,
                done,
            ).len() ==> record_is_ready(
                #[trigger] index_records(
                    index,
                    flags,
                    data,
                    st.index_position,
                    remaining,
                    st.data_position,
                    done,
                )[i],
            ),
    ensures
        index_steps(index, flags, version, None, remaining, st) is Ok,
        ({
            let after = index_steps(index, flags, version, None, remaining, st)->Ok_0;
            &&& after.index_position == index_end(index, flags, st.index_position, remaining)
            &&& after.data_position == st.data_position + padded_total(
                index,
                flags,
                st.index_position,
                remaining,
            )
            &&& state_is_good(
                after,
                data,
                index_records(
                    index,
                    flags,
                    data,
                    st.index_position,
                    remaining,
                    st.data_position,
                    done,
                ),
            )
        }),
    decreases remaining,
{
    let total = index_records(
        index,
        flags,
        data,
        st.index_position,
        remaining,
        st.data_position,
        done,
    );
    if remaining > 0 {
        let (entry, next) = parse_index_entry(
            index,
            st.index_position,
            flags,
            (remaining - 1) as u32,
        )->Ok_0;
        let r = entry_record(entry, data, st.data_position);
        let pushed = done.push(r);
        lemma_padded_total_positive(index, flags, next, (remaining - 1) as nat);
        lemma_index_records_prefix(
            index,
            flags,
            data,
            next,
            (remaining - 1) as nat,
            st.data_position + entry.size,
            pushed,
        );
        lemma_index_records_keys(
            index,
            flags,
            data,
            st.index_position,
            remaining,
            st.data_position,
            done,
        );
        assert(total[done.len() as int] == pushed[done.len() as int]);
        assert(total[done.len() as int] == r);
        assert(record_is_ready(r));
        assert forall|i: int| 0 <= i < done.len() implies (#[trigger] done[i]).path != disk_path(
            entry.path,
        ) by {
            assert(total[i] == pushed[i]);
            assert(pushed[i] == done[i]);
            lemma_strict_paths(total, i, done.len() as int);
        }
        lemma_step_records(index, flags, version, data, (remaining - 1) as u32, st, done);
        lemma_entry_round_trip(
            index,
            st.index_position,
            flags,
            (remaining - 1) as u32,
            data,
            st.data_position,
        );
        let after = index_step(index, flags, version, None, (remaining - 1) as u32, st)->Ok_0;
        assert forall|i: int| 0 <= i < pushed.len() implies (#[trigger] pushed[i]).key
            == lowercase_of(pushed[i].path) by {
            if i < done.len() {
                assert(pushed[i] == done[i]);
            }
        }
        lemma_steps_records(index, flags, version, data, (remaining - 1) as nat, after, pushed);
    }
}

/// The pack that a good state of a reading becomes is written from the records that the
/// state stands for, where the settings were read.
#[verifier::rlimit(40)]
pub proof fn lemma_pack_records_of_state(
    st: IndexState,
    data: Seq<u8>,
    done: Seq<SaveRecordView>,
    header: PackHeaderView,
    dependencies: Seq<Seq<char>>,
)
    requires
        state_is_good(st, data, done),
        st.settings is Some,
    ensures
        pack_records(
            PackView {
                header,
                dependencies,
                files: all_materialized(st.files, data),
                notes: notes_of(st.notes, data),
                settings: settings_of(st.settings, data),
            },
        ) == Ok::<Seq<SaveRecordView>, crate::error::RLibError>(state_records(st, data)),
{
    lemma_reserved_paths();
    lemma_records_of_ready(st.files, data, 0, Seq::empty());
    let files = lazy_records(st.files, data);
    assert(Seq::<SaveRecordView>::empty() + files.subrange(0, st.files.len() as int) =~= files);
    match st.notes {
        Some(f) => {
            let bytes = lazy_record(f, data).data;
            assert(stored_bytes(f, data) == Some(bytes));
            decode_utf8_encode_utf8(bytes);
            assert(virtual_record(RESERVED_NAME_NOTES@, encode_utf8(decode_utf8(bytes)))
                == lazy_record(f, data));
        },
        None => {},
    }
    let f = st.settings->Some_0;
    assert(stored_bytes(f, data) == Some(lazy_record(f, data).data));
    assert(virtual_record(RESERVED_NAME_SETTINGS@, lazy_record(f, data).data) == lazy_record(
        f,
        data,
    ));
}

/// True when the slot of the authoring tool holds a text and, behind it, zeros.
pub open spec fn tool_is_padded(data: Seq<u8>) -> bool {
    forall|k: int|
        first_zero(data.subrange(44, 52), 0) <= k < 8 ==> #[trigger] data[44 + k] == 0
}

/// The kind of a pack and its flags, taken apart and put together, are the word that they
/// were read from.
pub proof fn lemma_flags_word(word: u32)
    ensures
        (word & !FILE_TYPE_MASK) | PFHFileType::spec_from_value(word & FILE_TYPE_MASK).spec_value()
            == word,
{
    assert(((word & !0xFu32) | (word & 0xFu32)) == word) by (bit_vector);
}

/// Writing back the header of a pack of version 6 that was read gives the bytes that it was
/// read from, where the header holds the mark and the version of its second part and the
/// slot of the authoring tool is padded with zeros.
#[verifier::rlimit(40)]
pub proof fn lemma_header_round_trip(data: Seq<u8>, header: PackHeaderView)
    requires
        data.len() >= 308,
        preamble_version(data) == Ok::<u32, crate::error::RLibError>(6),
        header.pfh_version == PFHVersion::PFH6,
        header.pfh_file_type == PFHFileType::spec_from_value(le_u32(data, 4) & FILE_TYPE_MASK),
        header.bitmask == (PFHFlags { bits: le_u32(data, 4) & !FILE_TYPE_MASK }),
        header.timestamp == le_u32(data, 24),
        le_u32(data, 28) == SUBHEADER_MARK,
        le_u32(data, 32) == SUBHEADER_VERSION,
        header.game_version == le_u32(data, 36),
        header.build_number == le_u32(data, 40),
        parse_string_u8_0padded(data, 44, 8) is Ok,
        header.authoring_tool == parse_string_u8_0padded(data, 44, 8)->Ok_0.0,
        tool_is_padded(data),
        header.extra_subheader_data == data.subrange(52, 308),
    ensures
        encode_utf8(header.authoring_tool).len() <= 8,
        header_bytes(
            header,
            le_u32(data, 8),
            le_u32(data, 12),
            le_u32(data, 16),
            le_u32(data, 20),
        ) == data.subrange(0, 308),
{
    lemma_flags_word(le_u32(data, 4));
    lemma_u32_read_write(data, 4);
    lemma_u32_read_write(data, 8);
    lemma_u32_read_write(data, 12);
    lemma_u32_read_write(data, 16);
    lemma_u32_read_write(data, 20);
    lemma_u32_read_write(data, 24);
    lemma_u32_read_write(data, 28);
    lemma_u32_read_write(data, 32);
    lemma_u32_read_write(data, 36);
    lemma_u32_read_write(data, 40);
    let slot = data.subrange(44, 52);
    lemma_first_zero(slot, 0);
    let z = first_zero(slot, 0);
    let text = data.subrange(44, 44 + z);
    decode_utf8_encode_utf8(text);
    assert(encode_utf8(header.authoring_tool) == text);
    assert(zeros(8 - z) =~= data.subrange(44 + z, 52)) by {
        let tail = data.subrange(44 + z, 52);
        assert forall|k: int| 0 <= k < 8 - z implies #[trigger] tail[k] == 0 by {
            assert(data[44 + (z + k)] == 0);
        }
    }
    assert(header.pfh_version.spec_preamble() =~= data.subrange(0, 4));
    lemma_subrange_join(data, 0, 4, 8);
    lemma_subrange_join(data, 0, 8, 12);
    lemma_subrange_join(data, 0, 12, 16);
    lemma_subrange_join(data, 0, 16, 20);
    lemma_subrange_join(data, 0, 20, 24);
    lemma_subrange_join(data, 0, 24, 28);
    lemma_subrange_join(data, 0, 28, 32);
    lemma_subrange_join(data, 0, 32, 36);
    lemma_subrange_join(data, 0, 36, 40);
    lemma_subrange_join(data, 0, 40, 44);
    lemma_subrange_join(data, 0, 44, 44 + z);
    lemma_subrange_join(data, 0, 44 + z, 52);
    lemma_subrange_join(data, 0, 52, 308);
}

/// True when the bytes are a pack of version 6 as this library writes it with the given
/// options:
///
/// - the pack has no extended header and nothing encrypted, and is of a kind that can be
///   written;
/// - its header holds the time and the version of the game that the options give, the mark
///   and the version of its second part, and the authoring tool padded with zeros;
/// - the names of the dependencies and the records of the index fill the room that the
///   header gives them, and the data of the files fills the rest;
/// - each record of the index is written as it is read: its byte for compression is 0 or
///   1, and its path has no `/`;
/// - the records stand in the order of writing, no two of which may be written in either
///   order;
/// - the entries for the notes and the settings are not compressed and have no timestamp,
///   the notes are text, no table is compressed, and there is an entry for the settings.
pub open spec fn is_canonical_pfh6(data: Seq<u8>, options: SaveOptions) -> bool {
    let word = le_u32(data, 4);
    let file_type = PFHFileType::spec_from_value(word & FILE_TYPE_MASK);
    let flags = PFHFlags { bits: word & !FILE_TYPE_MASK };
    let dependencies_count = le_u32(data, 8);
    let dependencies_size = le_u32(data, 12);
    let files_count = le_u32(data, 16);
    let index_size = le_u32(data, 20);
    let index_start = 308 + dependencies_size;
    let first_data = index_start + index_size;
    let names = data.subrange(308, index_start);
    let index = data.subrange(index_start, first_data);
    let records = index_records(
        index,
        flags,
        data,
        0,
        files_count as nat,
        first_data,
        Seq::empty(),
    );
    &&& 308 <= data.len() <= u64::MAX
    &&& first_data <= data.len()
    &&& preamble_version(data) == Ok::<u32, crate::error::RLibError>(6)
    &&& is_plain(flags)
    &&& !flags.spec_contains(HAS_EXTENDED_HEADER)
    &&& spec_is_editable(
        new_header(PFHVersion::PFH6, file_type, flags),
        options.allow_editing_of_ca_packfiles,
    )
    &&& !options.spoof_ca_authoring_tool
    &&& options.timestamp == le_u32(data, 24)
    &&& (options.game_version is None || options.game_version == Some(le_u32(data, 36)))
    &&& le_u32(data, 28) == SUBHEADER_MARK
    &&& le_u32(data, 32) == SUBHEADER_VERSION
    &&& parse_string_u8_0padded(data, 44, 8) is Ok
    &&& tool_is_padded(data)
    &&& parse_names(names, 0, dependencies_count as nat, Seq::empty()) is Ok
    &&& names_end(names, 0, dependencies_count as nat) == dependencies_size
    &&& entries_are_canonical(index, flags, 0, files_count as nat)
    &&& index_end(index, flags, 0, files_count as nat) == index_size
    &&& first_data + padded_total(index, flags, 0, files_count as nat) == data.len()
    &&& is_strictly_sorted(records)
    &&& forall|i: int| 0 <= i < records.len() ==> record_is_ready(#[trigger] records[i])
    &&& index_steps(
        index,
        flags,
        PFHVersion::PFH6,
        None,
        files_count as nat,
        IndexState {
            index_position: 0,
            data_position: first_data,
            files: Seq::empty(),
            notes: None,
            settings: None,
        },
    ) matches Ok(st) && st.settings is Some
}

/// The flags of the pack that the bytes stand for.
pub open spec fn flags_of(data: Seq<u8>) -> PFHFlags {
    PFHFlags { bits: le_u32(data, 4) & !FILE_TYPE_MASK }
}

/// The names of the dependencies as they stand in the bytes.
pub open spec fn names_of(data: Seq<u8>) -> Seq<u8> {
    data.subrange(308, 308 + le_u32(data, 12))
}

/// The index as it stands in the bytes.
pub open spec fn index_of(data: Seq<u8>) -> Seq<u8> {
    data.subrange(308 + le_u32(data, 12), 308 + le_u32(data, 12) + le_u32(data, 20))
}

/// Where the data of the first file starts.
pub open spec fn first_data_of(data: Seq<u8>) -> int {
    308 + le_u32(data, 12) + le_u32(data, 20)
}

/// The state in which the reading of the index starts.
pub open spec fn start_of(data: Seq<u8>) -> IndexState {
    IndexState {
        index_position: 0,
        data_position: first_data_of(data),
        files: Seq::empty(),
        notes: None,
        settings: None,
    }
}

/// The state in which the reading of the index ends.
pub open spec fn end_of(data: Seq<u8>) -> IndexState {
    index_steps(
        index_of(data),
        flags_of(data),
        PFHVersion::PFH6,
        None,
        le_u32(data, 16) as nat,
        start_of(data),
    )->Ok_0
}

/// The records of the index, in its order.
pub open spec fn records_of(data: Seq<u8>) -> Seq<SaveRecordView> {
    index_records(
        index_of(data),
        flags_of(data),
        data,
        0,
        le_u32(data, 16) as nat,
        first_data_of(data),
        Seq::empty(),
    )
}

/// The header that is read from the bytes.
pub open spec fn header_of(data: Seq<u8>) -> PackHeaderView {
    PackHeaderView {
        pfh_version: PFHVersion::PFH6,
        pfh_file_type: PFHFileType::spec_from_value(le_u32(data, 4) & FILE_TYPE_MASK),
        bitmask: flags_of(data),
        timestamp: le_u32(data, 24),
        game_version: le_u32(data, 36),
        build_number: le_u32(data, 40),
        authoring_tool: parse_string_u8_0padded(data, 44, 8)->Ok_0.0,
        extra_subheader_data: data.subrange(52, 308),
    }
}

/// The pack that is read from the bytes.
pub open spec fn pack_of(data: Seq<u8>) -> PackView {
    PackView {
        header: header_of(data),
        dependencies: parse_names(names_of(data), 0, le_u32(data, 8) as nat, Seq::empty())->Ok_0,
        files: all_materialized(end_of(data).files, data),
        notes: notes_of(end_of(data).notes, data),
        settings: settings_of(end_of(data).settings, data),
    }
}

/// The index of a pack as this library writes it is read to its end, and what is read
/// stands for its records.
#[verifier::rlimit(40)]
pub proof fn lemma_canonical_index(data: Seq<u8>, options: SaveOptions)
    requires
        is_canonical_pfh6(data, options),
    ensures
        index_steps(
            index_of(data),
            flags_of(data),
            PFHVersion::PFH6,
            None,
            le_u32(data, 16) as nat,
            start_of(data),
        ) is Ok,
        end_of(data).data_position == data.len(),
        end_of(data).settings is Some,
        state_is_good(end_of(data), data, records_of(data)),
{
    assert(state_records(start_of(data), data) =~= Seq::<SaveRecordView>::empty());
    assert(state_is_good(start_of(data), data, Seq::empty()));
    lemma_steps_records(
        index_of(data),
        flags_of(data),
        PFHVersion::PFH6,
        data,
        le_u32(data, 16) as nat,
        start_of(data),
        Seq::empty(),
    );
}

/// A pack as this library writes it is read.
#[verifier::rlimit(50)]
pub proof fn lemma_canonical_read(data: Seq<u8>, options: SaveOptions)
    requires
        is_canonical_pfh6(data, options),
    ensures
        spec_read(data, None, false) == Ok::<PackView, crate::error::RLibError>(pack_of(data)),
{
    let flags = flags_of(data);
    let file_type = PFHFileType::spec_from_value(le_u32(data, 4) & FILE_TYPE_MASK);
    let before = new_header(PFHVersion::PFH6, file_type, flags);
    lemma_canonical_index(data, options);
    assert(header_len(flags) == 308);
    assert(data_start(flags, le_u32(data, 12), le_u32(data, 20)) == first_data_of(data));
    assert(footer_len(flags) == 0);
    assert(spec_read_pfh6(data, before, None, false) == Ok::<PackView, crate::error::RLibError>(
        pack_of(data),
    ));
}

/// A pack as this library writes it is written from the records of its index, in their
/// order.
#[verifier::rlimit(40)]
pub proof fn lemma_canonical_records(data: Seq<u8>, options: SaveOptions)
    requires
        is_canonical_pfh6(data, options),
    ensures
        pack_records(pack_of(data)) is Ok,
        sorted_records(pack_records(pack_of(data))->Ok_0) == records_of(data),
{
    lemma_canonical_index(data, options);
    let st = end_of(data);
    lemma_pack_records_of_state(
        st,
        data,
        records_of(data),
        header_of(data),
        pack_of(data).dependencies,
    );
    let unsorted = state_records(st, data);
    lemma_sorted_records(unsorted);
    lemma_sorted_unique(records_of(data), sorted_records(unsorted));
}

/// The header, the names, the index and the data of a pack as this library writes it, put
/// together, are the pack.
#[verifier::rlimit(50)]
pub proof fn lemma_canonical_assembled(data: Seq<u8>, options: SaveOptions)
    requires
        is_canonical_pfh6(data, options),
    ensures
        header_fault(header_of(data)) is None,
        saved_header(header_of(data), options) == header_of(data),
        assembled(header_of(data), pack_of(data).dependencies, records_of(data)) == Ok::<
            Seq<u8>,
            crate::error::RLibError,
        >(data),
{
    let flags = flags_of(data);
    let names = names_of(data);
    let index = index_of(data);
    let first_data = first_data_of(data);
    let dependencies_count = le_u32(data, 8);
    let files_count = le_u32(data, 16);
    let header = header_of(data);
    lemma_names_round_trip(names, 0, dependencies_count as nat, Seq::empty());
    let dependencies = pack_of(data).dependencies;
    assert(names_bytes(dependencies) == names) by {
        assert(names_bytes(Seq::<Seq<char>>::empty()) + names.subrange(0, names.len() as int)
            =~= names);
    }
    lemma_index_round_trip(index, flags, data, 0, files_count as nat, first_data, Seq::empty());
    let records = records_of(data);
    assert(index_bytes(records, flags) == index) by {
        assert(index_bytes(Seq::<SaveRecordView>::empty(), flags) + index.subrange(
            0,
            index.len() as int,
        ) =~= index);
    }
    let tail = data.subrange(first_data, data.len() as int);
    assert(data_bytes(records) == tail) by {
        assert(data_bytes(Seq::<SaveRecordView>::empty()) + tail =~= tail);
    }
    lemma_header_round_trip(data, header);
    let head = data.subrange(0, 308);
    assert(head + names + index + tail =~= data);
    assert(dependencies.len() == dependencies_count);
    assert(records.len() == files_count);
}

/// Round trip: a pack of version 6 as this library writes it is read, and writing what was
/// read with the same options gives the bytes that were read, to the last one.
#[verifier::rlimit(40)]
pub proof fn lemma_pack_round_trip(data: Seq<u8>, options: SaveOptions)
    requires
        is_canonical_pfh6(data, options),
    ensures
        spec_read(data, None, false) is Ok,
        spec_save(spec_read(data, None, false)->Ok_0, options) == Ok::<
            (Seq<u8>, PackHeaderView),
            crate::error::RLibError,
        >((data, spec_read(data, None, false)->Ok_0.header)),
{
    lemma_canonical_read(data, options);
    lemma_canonical_records(data, options);
    lemma_canonical_assembled(data, options);
    let pack = pack_of(data);
    assert(spec_is_editable(pack.header, options.allow_editing_of_ca_packfiles));
    assert(spec_save_pfh6(pack, options) == Ok::<(Seq<u8>, PackHeaderView), crate::error::RLibError>(
        (data, pack.header),
    ));
}


/// Under the bare layout nothing is encrypted, and a record of the index holds neither a
/// timestamp nor a byte for compression.
pub proof fn lemma_bare_layout()
    ensures
        is_plain(bare_layout()),
        bare_layout().spec_contains(HAS_EXTENDED_HEADER),
        !bare_layout().spec_contains(HAS_INDEX_WITH_TIMESTAMPS),
{
    assert(0x100u32 & 0x100 == 0x100) by (bit_vector);
    assert(0x100u32 & 0x40 != 0x40) by (bit_vector);
    assert(0x100u32 & 0x80 != 0x80) by (bit_vector);
    assert(0x100u32 & 0x10 != 0x10) by (bit_vector);
}

/// The records of an index whose records hold no byte for compression are not compressed.
pub proof fn lemma_index_records_plain(
    index: Seq<u8>,
    flags: PFHFlags,
    data: Seq<u8>,
    pos: int,
    remaining: nat,
    start: int,
    done: Seq<SaveRecordView>,
)
    requires
        flags.spec_contains(HAS_EXTENDED_HEADER),
        !flags.spec_contains(HAS_ENCRYPTED_INDEX),
        none_compressed(done),
    ensures
        none_compressed(index_records(index, flags, data, pos, remaining, start, done)),
    decreases remaining,
{
    if remaining > 0 {
        match parse_index_entry(index, pos, flags, (remaining - 1) as u32) {
            Ok((entry, next)) => {
                let pushed = done.push(entry_record(entry, data, start));
                assert forall|i: int| 0 <= i < pushed.len() implies !(#[trigger] pushed[i]).is_compressed by {
                    if i < done.len() {
                        assert(pushed[i] == done[i]);
                    }
                }
                lemma_index_records_plain(
                    index,
                    flags,
                    data,
                    next,
                    (remaining - 1) as nat,
                    start + padded_size(entry.size, flags),
                    pushed,
                );
            },
            Err(_) => {},
        }
    }
}

/// The state in which the reading of the index of a pack of version 0 ends.
pub open spec fn end_of_pfh0(data: Seq<u8>) -> IndexState {
    index_steps(
        data.subrange(24 + le_u32(data, 12), 24 + le_u32(data, 12) + le_u32(data, 20)),
        bare_layout(),
        PFHVersion::PFH0,
        None,
        le_u32(data, 16) as nat,
        IndexState {
            index_position: 0,
            data_position: 24 + le_u32(data, 12) + le_u32(data, 20),
            files: Seq::empty(),
            notes: None,
            settings: None,
        },
    )->Ok_0
}

/// The records of the index of a pack of version 0, in its order.
pub open spec fn records_of_pfh0(data: Seq<u8>) -> Seq<SaveRecordView> {
    index_records(
        data.subrange(24 + le_u32(data, 12), 24 + le_u32(data, 12) + le_u32(data, 20)),
        bare_layout(),
        data,
        0,
        le_u32(data, 16) as nat,
        24 + le_u32(data, 12) + le_u32(data, 20),
        Seq::empty(),
    )
}

/// The pack that is read from the bytes of a pack of version 0.
pub open spec fn pack_of_pfh0(data: Seq<u8>) -> PackView {
    PackView {
        header: new_header(
            PFHVersion::PFH0,
            PFHFileType::spec_from_value(le_u32(data, 4) & FILE_TYPE_MASK),
            flags_of(data),
        ),
        dependencies: parse_names(
            data.subrange(24, 24 + le_u32(data, 12)),
            0,
            le_u32(data, 8) as nat,
            Seq::empty(),
        )->Ok_0,
        files: all_materialized(end_of_pfh0(data).files, data),
        notes: notes_of(end_of_pfh0(data).notes, data),
        settings: settings_of(end_of_pfh0(data).settings, data),
    }
}

/// True when the bytes are a pack of version 0 as this library writes it:
///
/// - the names of the dependencies and the records of the index fill the room that the
///   header gives them, and the data of the files fills the rest;
/// - the path of each record of the index has no `/`;
/// - the records stand in the order of writing, no two of which may be written in either
///   order;
/// - the notes, where there are notes, are text, and there is an entry for the settings.
pub open spec fn is_canonical_pfh0(data: Seq<u8>) -> bool {
    let dependencies_count = le_u32(data, 8);
    let dependencies_size = le_u32(data, 12);
    let files_count = le_u32(data, 16);
    let index_size = le_u32(data, 20);
    let index_start = 24 + dependencies_size;
    let first_data = index_start + index_size;
    let names = data.subrange(24, index_start);
    let index = data.subrange(index_start, first_data);
    let records = records_of_pfh0(data);
    &&& 24 <= data.len() <= u64::MAX
    &&& first_data <= data.len()
    &&& preamble_version(data) == Ok::<u32, crate::error::RLibError>(0)
    &&& parse_names(names, 0, dependencies_count as nat, Seq::empty()) is Ok
    &&& names_end(names, 0, dependencies_count as nat) == dependencies_size
    &&& entries_are_canonical(index, bare_layout(), 0, files_count as nat)
    &&& index_end(index, bare_layout(), 0, files_count as nat) == index_size
    &&& first_data + padded_total(index, bare_layout(), 0, files_count as nat) == data.len()
    &&& is_strictly_sorted(records)
    &&& forall|i: int| 0 <= i < records.len() ==> record_is_ready(#[trigger] records[i])
    &&& index_steps(
        index,
        bare_layout(),
        PFHVersion::PFH0,
        None,
        files_count as nat,
        IndexState {
            index_position: 0,
            data_position: first_data,
            files: Seq::empty(),
            notes: None,
            settings: None,
        },
    ) matches Ok(st) && st.settings is Some
}

/// The index of a pack of version 0 as this library writes it is read to its end, and what
/// is read stands for its records.
#[verifier::rlimit(40)]
pub proof fn lemma_canonical_index_pfh0(data: Seq<u8>)
    requires
        is_canonical_pfh0(data),
    ensures
        end_of_pfh0(data).data_position == data.len(),
        end_of_pfh0(data).settings is Some,
        state_is_good(end_of_pfh0(data), data, records_of_pfh0(data)),
        none_compressed(records_of_pfh0(data)),
{
    lemma_bare_layout();
    let index = data.subrange(24 + le_u32(data, 12), 24 + le_u32(data, 12) + le_u32(data, 20));
    let start = IndexState {
        index_position: 0,
        data_position: 24 + le_u32(data, 12) + le_u32(data, 20),
        files: Seq::empty(),
        notes: None,
        settings: None,
    };
    assert(state_records(start, data) =~= Seq::<SaveRecordView>::empty());
    assert(state_is_good(start, data, Seq::empty()));
    lemma_steps_records(
        index,
        bare_layout(),
        PFHVersion::PFH0,
        data,
        le_u32(data, 16) as nat,
        start,
        Seq::empty(),
    );
    lemma_index_records_plain(
        index,
        bare_layout(),
        data,
        0,
        le_u32(data, 16) as nat,
        24 + le_u32(data, 12) + le_u32(data, 20),
        Seq::empty(),
    );
}

/// A pack of version 0 as this library writes it is read.
#[verifier::rlimit(50)]
pub proof fn lemma_canonical_read_pfh0(data: Seq<u8>)
    requires
        is_canonical_pfh0(data),
    ensures
        spec_read(data, None, false) == Ok::<PackView, crate::error::RLibError>(
            pack_of_pfh0(data),
        ),
{
    lemma_canonical_index_pfh0(data);
    let before = pack_of_pfh0(data).header;
    let lazy = PackView { files: end_of_pfh0(data).files, ..pack_of_pfh0(data) };
    assert(spec_read_pfh0(data, before) == Ok::<(PackView, u64), crate::error::RLibError>(
        (lazy, data.len() as u64),
    ));
}

/// The header, the names, the index and the data of a pack of version 0 as this library
/// writes it, put together, are the pack.
#[verifier::rlimit(50)]
pub proof fn lemma_canonical_assembled_pfh0(data: Seq<u8>)
    requires
        is_canonical_pfh0(data),
    ensures
        ({
            let pack = pack_of_pfh0(data);
            let records = records_of_pfh0(data);
            let names = names_bytes(pack.dependencies);
            let index = index_bytes(records, bare_layout());
            &&& pack.dependencies.len() == le_u32(data, 8)
            &&& names.len() == le_u32(data, 12)
            &&& records.len() == le_u32(data, 16)
            &&& index.len() == le_u32(data, 20)
            &&& pfh0_header_bytes(
                pack.header,
                le_u32(data, 8),
                le_u32(data, 12),
                le_u32(data, 16),
                le_u32(data, 20),
            ) + names + index + data_bytes(records) == data
        }),
{
    lemma_bare_layout();
    let dependencies_size = le_u32(data, 12);
    let index_size = le_u32(data, 20);
    let index_start = 24 + dependencies_size;
    let first_data = index_start + index_size;
    let names = data.subrange(24, index_start);
    let index = data.subrange(index_start, first_data);
    let pack = pack_of_pfh0(data);
    lemma_names_round_trip(names, 0, le_u32(data, 8) as nat, Seq::empty());
    assert(names_bytes(pack.dependencies) == names) by {
        assert(names_bytes(Seq::<Seq<char>>::empty()) + names.subrange(0, names.len() as int)
            =~= names);
    }
    lemma_index_round_trip(
        index,
        bare_layout(),
        data,
        0,
        le_u32(data, 16) as nat,
        first_data,
        Seq::empty(),
    );
    let records = records_of_pfh0(data);
    assert(index_bytes(records, bare_layout()) == index) by {
        assert(index_bytes(Seq::<SaveRecordView>::empty(), bare_layout()) + index.subrange(
            0,
            index.len() as int,
        ) =~= index);
    }
    let tail = data.subrange(first_data, data.len() as int);
    assert(data_bytes(records) == tail) by {
        assert(data_bytes(Seq::<SaveRecordView>::empty()) + tail =~= tail);
    }
    lemma_flags_word(le_u32(data, 4));
    lemma_u32_read_write(data, 4);
    lemma_u32_read_write(data, 8);
    lemma_u32_read_write(data, 12);
    lemma_u32_read_write(data, 16);
    lemma_u32_read_write(data, 20);
    assert(pack.header.pfh_version.spec_preamble() =~= data.subrange(0, 4));
    lemma_subrange_join(data, 0, 4, 8);
    lemma_subrange_join(data, 0, 8, 12);
    lemma_subrange_join(data, 0, 12, 16);
    lemma_subrange_join(data, 0, 16, 20);
    lemma_subrange_join(data, 0, 20, 24);
    let head = data.subrange(0, 24);
    assert(pfh0_header_bytes(
        pack.header,
        le_u32(data, 8),
        le_u32(data, 12),
        le_u32(data, 16),
        le_u32(data, 20),
    ) == head);
    assert(head + names + index + tail =~= data);
}

/// Round trip of a pack of version 0: a pack as this library writes it is read, and writing
/// what was read gives the bytes that were read, to the last one, whatever the options.
pub proof fn lemma_pack_round_trip_pfh0(data: Seq<u8>, options: SaveOptions)
    requires
        is_canonical_pfh0(data),
    ensures
        spec_read(data, None, false) is Ok,
        spec_save(spec_read(data, None, false)->Ok_0, options) == Ok::<
            (Seq<u8>, PackHeaderView),
            crate::error::RLibError,
        >((data, spec_read(data, None, false)->Ok_0.header)),
{
    lemma_canonical_read_pfh0(data);
    lemma_canonical_index_pfh0(data);
    lemma_canonical_assembled_pfh0(data);
    let pack = pack_of_pfh0(data);
    let st = end_of_pfh0(data);
    lemma_pack_records_of_state(
        st,
        data,
        records_of_pfh0(data),
        pack.header,
        pack.dependencies,
    );
    let unsorted = state_records(st, data);
    lemma_sorted_records(unsorted);
    lemma_sorted_unique(records_of_pfh0(data), sorted_records(unsorted));
    assert(spec_write_pfh0(pack) == Ok::<Seq<u8>, crate::error::RLibError>(data));
}

} // verus!
