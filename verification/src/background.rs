//! What the owner of a pack does with the requests that it is sent. One request is handled
//! at a time: the caller sends it, waits, and is sent the reply where there is one.

use vstd::prelude::*;

use crate::error::RLibError;
use crate::pack::file_type::{classify, FileType};
use crate::pack::pfh6::SaveOptions;
use crate::pack::save::settled_files;
use crate::pack::{
    empty_pack, new_header, position_of, removed, spec_read, spec_save, texts, unique_paths,
    FileData, FileDataView, PFHFileType, PFHFlags, PFHVersion, Pack, PackHeaderView, PackView,
    RFile, RFileView, HAS_INDEX_WITH_TIMESTAMPS,
};
use crate::text::lowercase_of;

verus! {

/// What is known of a file without its data.
#[derive(Debug)]
pub struct RFileInfo {
    pub path: String,
    pub timestamp: u32,
    pub file_type: FileType,
    pub is_in_memory: bool,
}

/// What is known of a pack without its files.
#[derive(Clone, Copy, Debug, PartialEq, Eq, Structural)]
pub struct ContainerInfo {
    pub pfh_version: PFHVersion,
    pub pfh_file_type: PFHFileType,
    pub bitmask: PFHFlags,
    pub timestamp: u32,
}

/// A request to the owner of a pack.
#[derive(Debug)]
pub enum Command {
    /// Stop handling requests.
    Exit,
    /// Forget the pack and start with an empty one.
    ResetPackFile,
    /// Start a new pack of the given version, for the given version of the game.
    NewPackFile(PFHVersion, Option<u32>),
    /// Read a pack from its bytes; the flag tells whether its files stay in the source.
    OpenPackFile(Vec<u8>, bool),
    /// Write the pack.
    SavePackFile(SaveOptions),
    /// Change the kind of the pack.
    SetPackFileType(PFHFileType),
    /// Tell whether the index of the pack is to hold timestamps.
    ChangeIndexIncludesTimestamp(bool),
    /// Ask for the names of the packs that are to be loaded before this one.
    GetDependencyPackFilesList,
    /// Set the names of the packs that are to be loaded before this one.
    SetDependencyPackFilesList(Vec<String>),
    /// Ask for what is known of the pack and of each of its files.
    GetPackFileDataForTreeView,
    /// Ask for what is known of the file with the given path.
    GetRFileInfo(String),
    /// Ask for what is known of the files with the given paths.
    GetPackedFilesInfo(Vec<String>),
    /// Ask for the file with the given path, as it is.
    FileFromLocalPack(String),
    /// Ask for the data of the file with the given path.
    GetPackedFileRawData(String),
    /// Take the files with the given paths out of the pack.
    DeletePackedFiles(Vec<String>),
    /// Ask for the settings of the pack.
    GetPackSettings,
    /// Set the settings of the pack.
    SetPackSettings(Vec<u8>),
}

/// The reply to a request.
#[derive(Debug)]
pub enum Response {
    Success,
    Error(RLibError),
    ContainerInfo(ContainerInfo),
    /// The bytes that the pack was written as.
    Saved(Vec<u8>),
    VecString(Vec<String>),
    OptionRFileInfo(Option<RFileInfo>),
    VecRFileInfo(Vec<RFileInfo>),
    ContainerInfoVecRFileInfo(ContainerInfo, Vec<RFileInfo>),
    OptionRFile(Option<RFile>),
    VecU8(Vec<u8>),
}

/// What the owner of a pack does after a request.
#[derive(Debug)]
pub enum Reaction {
    /// Stops handling requests.
    Stop,
    /// Goes on, and sends nothing back.
    Nothing,
    /// Goes on, and sends the reply back.
    Reply(Response),
}

/// What is known of a pack with the given header.
pub open spec fn container_info(header: PackHeaderView) -> ContainerInfo {
    ContainerInfo {
        pfh_version: header.pfh_version,
        pfh_file_type: header.pfh_file_type,
        bitmask: header.bitmask,
        timestamp: header.timestamp,
    }
}

/// True when the info is that of the file.
pub open spec fn is_info_of(info: RFileInfo, file: RFileView) -> bool {
    &&& info.path@ == file.path
    &&& info.timestamp == file.timestamp
    &&& info.file_type == classify(lowercase_of(file.path))
    &&& info.is_in_memory == (file.data is OnMemory)
}

/// True when the infos are those of the files, one for one.
pub open spec fn are_infos_of(infos: Seq<RFileInfo>, files: Seq<RFileView>) -> bool {
    infos.len() == files.len() && forall|k: int|
        0 <= k < infos.len() ==> is_info_of(#[trigger] infos[k], files[k])
}

/// The files at the paths from `i` on, behind the files `found`: for each path the file that
/// is there, where there is one.
pub open spec fn files_at(
    files: Seq<RFileView>,
    paths: Seq<Seq<char>>,
    i: int,
    found: Seq<RFileView>,
) -> Seq<RFileView>
    decreases paths.len() - i,
{
    if i < 0 || i >= paths.len() {
        found
    } else if position_of(files, paths[i]) < files.len() {
        files_at(files, paths, i + 1, found.push(files[position_of(files, paths[i])]))
    } else {
        files_at(files, paths, i + 1, found)
    }
}

/// The flags with the bits of `flag` set or cleared.
pub open spec fn with_flag(flags: PFHFlags, flag: u32, state: bool) -> PFHFlags {
    if state {
        PFHFlags { bits: flags.bits | flag }
    } else {
        PFHFlags { bits: flags.bits & !flag }
    }
}

/// The files after those with the paths from `i` on were taken out, one path after the
/// other.
pub open spec fn without_paths(files: Seq<RFileView>, paths: Seq<Seq<char>>, i: int) -> Seq<
    RFileView,
>
    decreases paths.len() - i,
{
    if i < 0 || i >= paths.len() {
        files
    } else {
        without_paths(removed(files, paths[i]), paths, i + 1)
    }
}

/// The paths from `i` on that were taken out, behind the paths `done`: those at which there
/// was a file when their turn came.
pub open spec fn deleted_paths(
    files: Seq<RFileView>,
    paths: Seq<Seq<char>>,
    i: int,
    done: Seq<Seq<char>>,
) -> Seq<Seq<char>>
    decreases paths.len() - i,
{
    if i < 0 || i >= paths.len() {
        done
    } else if position_of(files, paths[i]) < files.len() {
        deleted_paths(removed(files, paths[i]), paths, i + 1, done.push(paths[i]))
    } else {
        deleted_paths(removed(files, paths[i]), paths, i + 1, done)
    }
}

impl Pack {
    /// What is known of the pack without its files.
    pub fn info(&self) -> (r: ContainerInfo)
        ensures
            r == container_info(self@.header),
    {
        ContainerInfo {
            pfh_version: self.header.pfh_version,
            pfh_file_type: self.header.pfh_file_type,
            bitmask: self.header.bitmask,
            timestamp: self.header.timestamp,
        }
    }

    /// What is known of each file of the pack, in the order of the files.
    pub fn infos(&self) -> (r: Vec<RFileInfo>)
        ensures
            are_infos_of(r@, self@.files),
    {
        let mut out: Vec<RFileInfo> = Vec::new();
        let n: usize = self.files.len();
        let mut i: usize = 0;
        while i < n
            invariant
                i <= n == self.files@.len(),
                out@.len() == i,
                forall|k: int| 0 <= k < i ==> is_info_of(#[trigger] out@[k], self.files@[k]@),
            decreases n - i,
        {
            out.push(self.files[i].info());
            i = i + 1;
        }
        out
    }

    /// What is known of the files at the given paths, in the order of the paths. A path at
    /// which there is no file gives nothing.
    pub fn infos_at(&self, paths: &Vec<String>) -> (r: Vec<RFileInfo>)
        ensures
            are_infos_of(r@, files_at(self@.files, texts(paths@), 0, Seq::empty())),
    {
        let mut out: Vec<RFileInfo> = Vec::new();
        let ghost mut found: Seq<RFileView> = Seq::empty();
        let n: usize = paths.len();
        let mut i: usize = 0;
        while i < n
            invariant
                i <= n == paths@.len(),
                are_infos_of(out@, found),
                files_at(self@.files, texts(paths@), 0, Seq::empty()) == files_at(
                    self@.files,
                    texts(paths@),
                    i as int,
                    found,
                ),
            decreases n - i,
        {
            proof {
                crate::pack::lemma_position_from(self@.files, paths@[i as int]@, 0);
            }
            match self.file(paths[i].as_str()) {
                Some(file) => {
                    out.push(file.info());
                    proof {
                        found = found.push(file@);
                    }
                },
                None => {},
            }
            i = i + 1;
        }
        out
    }

    /// Takes the files with the given paths out of the pack, one path after the other, and
    /// gives the paths at which there was a file.
    #[verifier::rlimit(40)]
    pub fn remove_all(&mut self, paths: &Vec<String>) -> (r: Vec<String>)
        ensures
            final(self)@ == (PackView {
                files: without_paths(old(self)@.files, texts(paths@), 0),
                ..old(self)@
            }),
            texts(r@) == deleted_paths(old(self)@.files, texts(paths@), 0, Seq::empty()),
            unique_paths(old(self)@.files) ==> unique_paths(final(self)@.files),
    {
        let mut done: Vec<String> = Vec::new();
        let n: usize = paths.len();
        let mut i: usize = 0;
        assert(texts(done@) =~= Seq::<Seq<char>>::empty());
        while i < n
            invariant
                i <= n == paths@.len(),
                self@.header == old(self)@.header,
                self@.dependencies == old(self)@.dependencies,
                self@.notes == old(self)@.notes,
                self@.settings == old(self)@.settings,
                unique_paths(old(self)@.files) ==> unique_paths(self@.files),
                without_paths(old(self)@.files, texts(paths@), 0) == without_paths(
                    self@.files,
                    texts(paths@),
                    i as int,
                ),
                deleted_paths(old(self)@.files, texts(paths@), 0, Seq::empty()) == deleted_paths(
                    self@.files,
                    texts(paths@),
                    i as int,
                    texts(done@),
                ),
            decreases n - i,
        {
            let ghost before = texts(done@);
            match self.remove(paths[i].as_str()) {
                Some(_) => {
                    done.push(paths[i].clone());
                    assert(texts(done@) =~= before.push(paths@[i as int]@));
                },
                None => {},
            }
            i = i + 1;
        }
        done
    }
}

impl RFile {
    /// A copy of the file.
    pub fn copy(&self) -> (r: RFile)
        ensures
            r@ == self@,
    {
        RFile {
            path: self.path.clone(),
            timestamp: self.timestamp,
            should_be_compressed: self.should_be_compressed,
            should_be_encrypted: self.should_be_encrypted,
            data: match &self.data {
                FileData::OnMemory { data, is_compressed, is_encrypted } => FileData::OnMemory {
                    data: data.clone(),
                    is_compressed: *is_compressed,
                    is_encrypted: *is_encrypted,
                },
                FileData::OnDisk { start, size, is_compressed, is_encrypted } => FileData::OnDisk {
                    start: *start,
                    size: *size,
                    is_compressed: *is_compressed,
                    is_encrypted: *is_encrypted,
                },
            },
        }
    }

    /// What is known of the file without its data.
    pub fn info(&self) -> (r: RFileInfo)
        ensures
            is_info_of(r, self@),
    {
        RFileInfo {
            path: self.path.clone(),
            timestamp: self.timestamp,
            file_type: self.file_type(),
            is_in_memory: match &self.data {
                FileData::OnMemory { .. } => true,
                FileData::OnDisk { .. } => false,
            },
        }
    }
}

/// True when the reaction is a reply with the given error.
pub open spec fn is_error_reply(r: Reaction, e: RLibError) -> bool {
    r matches Reaction::Reply(Response::Error(error)) && error == e
}

/// True when the reaction is a reply with the given bytes.
pub open spec fn is_bytes_reply(r: Reaction, bytes: Seq<u8>) -> bool {
    r matches Reaction::Reply(Response::VecU8(data)) && data@ == bytes
}

/// True when the reaction is a reply with the bytes that the pack was written as.
pub open spec fn is_saved_reply(r: Reaction, bytes: Seq<u8>) -> bool {
    r matches Reaction::Reply(Response::Saved(data)) && data@ == bytes
}

/// True when the reaction is a reply with the given texts.
pub open spec fn is_names_reply(r: Reaction, names: Seq<Seq<char>>) -> bool {
    r matches Reaction::Reply(Response::VecString(list)) && texts(list@) == names
}

/// True when the reaction is a reply with what is known of a pack.
pub open spec fn is_container_reply(r: Reaction, info: ContainerInfo) -> bool {
    r matches Reaction::Reply(Response::ContainerInfo(found)) && found == info
}

/// True when the reaction is a reply with what is known of the file at `at`, or with
/// nothing where there is no such file.
pub open spec fn is_file_reply(r: Reaction, files: Seq<RFileView>, at: int) -> bool {
    r matches Reaction::Reply(Response::OptionRFileInfo(info)) && (if 0 <= at < files.len() {
        info is Some && is_info_of(info->Some_0, files[at])
    } else {
        info is None
    })
}

/// True when the reaction is a reply with what is known of the pack and of each of its
/// files.
pub open spec fn is_tree_reply(r: Reaction, pack: PackView) -> bool {
    r matches Reaction::Reply(Response::ContainerInfoVecRFileInfo(info, list)) && info
        == container_info(pack.header) && are_infos_of(list@, pack.files)
}

/// True when the reaction is a reply with what is known of the given files.
pub open spec fn is_files_reply(r: Reaction, files: Seq<RFileView>) -> bool {
    r matches Reaction::Reply(Response::VecRFileInfo(list)) && are_infos_of(list@, files)
}

/// True when the reaction is a reply with the file at `at` as it is, or with nothing where
/// there is no such file.
pub open spec fn is_copy_reply(r: Reaction, files: Seq<RFileView>, at: int) -> bool {
    r matches Reaction::Reply(Response::OptionRFile(file)) && (if 0 <= at < files.len() {
        file is Some && file->Some_0@ == files[at]
    } else {
        file is None
    })
}

/// True when the reaction is a reply with the data of the file at `at`: its bytes where it
/// is in memory, an error where it is not, or where there is no such file.
pub open spec fn is_data_reply(r: Reaction, files: Seq<RFileView>, at: int) -> bool {
    if 0 <= at < files.len() {
        match files[at].data {
            FileDataView::OnMemory { data, .. } => is_bytes_reply(r, data),
            FileDataView::OnDisk { .. } => is_error_reply(r, RLibError::FileDataNotInMemory),
        }
    } else {
        is_error_reply(r, RLibError::FileNotFound)
    }
}

/// A copy of a list of texts.
pub fn clone_strings(list: &Vec<String>) -> (r: Vec<String>)
    ensures
        texts(r@) == texts(list@),
{
    let mut out: Vec<String> = Vec::new();
    let n: usize = list.len();
    let mut i: usize = 0;
    while i < n
        invariant
            i <= n == list@.len(),
            out@.len() == i,
            forall|k: int| 0 <= k < i ==> (#[trigger] out@[k])@ == list@[k]@,
        decreases n - i,
    {
        out.push(list[i].clone());
        i = i + 1;
    }
    assert(texts(out@) =~= texts(list@));
    out
}

/// The reply to a request for what is known of a file.
fn file_info_reply(pack: &Pack, path: &str) -> (r: Reaction)
    ensures
        is_file_reply(r, pack@.files, position_of(pack@.files, path@)),
{
    proof {
        crate::pack::lemma_position_from(pack@.files, path@, 0);
    }
    let info: Option<RFileInfo> = match pack.file(path) {
        Some(file) => Some(file.info()),
        None => None,
    };
    Reaction::Reply(Response::OptionRFileInfo(info))
}

/// The reply to a request for a file as it is.
fn file_copy_reply(pack: &Pack, path: &str) -> (r: Reaction)
    ensures
        is_copy_reply(r, pack@.files, position_of(pack@.files, path@)),
{
    proof {
        crate::pack::lemma_position_from(pack@.files, path@, 0);
    }
    let file: Option<RFile> = match pack.file(path) {
        Some(file) => Some(file.copy()),
        None => None,
    };
    Reaction::Reply(Response::OptionRFile(file))
}

/// The reply to a request for the data of a file.
fn file_data_reply(pack: &Pack, path: &str) -> (r: Reaction)
    ensures
        is_data_reply(r, pack@.files, position_of(pack@.files, path@)),
{
    proof {
        crate::pack::lemma_position_from(pack@.files, path@, 0);
    }
    match pack.file(path) {
        Some(file) => match file.cached() {
            Ok(data) => Reaction::Reply(Response::VecU8(data.clone())),
            Err(e) => Reaction::Reply(Response::Error(e)),
        },
        None => Reaction::Reply(Response::Error(RLibError::FileNotFound)),
    }
}

/// Handles one request to the owner of `pack`, and tells what the owner does then. No
/// request brings two files with one path into a pack that had none.
///
/// A request that asks for something leaves the pack as it is and is replied to with what
/// it asks for. A request that changes the pack is not replied to, but for those that can
/// fail: they are replied to with what came of them, and leave the pack as it is where they
/// fail.
#[verifier::rlimit(40)]
pub fn process_command(pack: &mut Pack, command: Command) -> (r: Reaction)
    ensures
        match command {
            Command::Exit => r is Stop && final(pack)@ == old(pack)@,
            Command::ResetPackFile => r is Nothing && final(pack)@ == empty_pack(
                new_header(PFHVersion::PFH6, PFHFileType::Mod, PFHFlags { bits: 0 }),
            ),
            Command::NewPackFile(version, game_version) => r is Nothing && final(pack)@
                == (PackView {
                header: PackHeaderView {
                    game_version: match game_version {
                        Some(v) => v,
                        None => 0,
                    },
                    ..new_header(version, PFHFileType::Mod, PFHFlags { bits: 0 })
                },
                ..empty_pack(new_header(version, PFHFileType::Mod, PFHFlags { bits: 0 }))
            }),
            Command::OpenPackFile(data, lazy) => match spec_read(data@, None, lazy) {
                Ok(read) => final(pack)@ == read && is_container_reply(
                    r,
                    container_info(read.header),
                ),
                Err(e) => final(pack)@ == old(pack)@ && is_error_reply(r, e),
            },
            Command::SavePackFile(options) => match spec_save(old(pack)@, options) {
                Ok((bytes, header)) => final(pack)@ == (PackView {
                    header,
                    files: settled_files(old(pack)@.files),
                    ..old(pack)@
                }) && is_saved_reply(r, bytes),
                Err(e) => final(pack)@ == old(pack)@ && is_error_reply(r, e),
            },
            Command::SetPackFileType(file_type) => r is Nothing && final(pack)@ == (PackView {
                header: PackHeaderView { pfh_file_type: file_type, ..old(pack)@.header },
                ..old(pack)@
            }),
            Command::ChangeIndexIncludesTimestamp(state) => r is Nothing && final(pack)@
                == (PackView {
                header: PackHeaderView {
                    bitmask: with_flag(old(pack)@.header.bitmask, HAS_INDEX_WITH_TIMESTAMPS, state),
                    ..old(pack)@.header
                },
                ..old(pack)@
            }),
            Command::GetDependencyPackFilesList => final(pack)@ == old(pack)@ && is_names_reply(
                r,
                old(pack)@.dependencies,
            ),
            Command::SetDependencyPackFilesList(names) => r is Nothing && final(pack)@
                == (PackView { dependencies: texts(names@), ..old(pack)@ }),
            Command::GetPackFileDataForTreeView => final(pack)@ == old(pack)@ && is_tree_reply(
                r,
                old(pack)@,
            ),
            Command::GetRFileInfo(path) => final(pack)@ == old(pack)@ && is_file_reply(
                r,
                old(pack)@.files,
                position_of(old(pack)@.files, path@),
            ),
            Command::GetPackedFilesInfo(paths) => final(pack)@ == old(pack)@ && is_files_reply(
                r,
                files_at(old(pack)@.files, texts(paths@), 0, Seq::empty()),
            ),
            Command::FileFromLocalPack(path) => final(pack)@ == old(pack)@ && is_copy_reply(
                r,
                old(pack)@.files,
                position_of(old(pack)@.files, path@),
            ),
            Command::GetPackedFileRawData(path) => final(pack)@ == old(pack)@ && is_data_reply(
                r,
                old(pack)@.files,
                position_of(old(pack)@.files, path@),
            ),
            Command::DeletePackedFiles(paths) => final(pack)@ == (PackView {
                files: without_paths(old(pack)@.files, texts(paths@), 0),
                ..old(pack)@
            }) && is_names_reply(
                r,
                deleted_paths(old(pack)@.files, texts(paths@), 0, Seq::empty()),
            ),
            Command::GetPackSettings => final(pack)@ == old(pack)@ && is_bytes_reply(
                r,
                old(pack)@.settings,
            ),
            Command::SetPackSettings(settings) => r is Nothing && final(pack)@ == (PackView {
                settings: settings@,
                ..old(pack)@
            }),
        },
        unique_paths(old(pack)@.files) ==> unique_paths(final(pack)@.files),
{
    match command {
        Command::Exit => Reaction::Stop,
        Command::ResetPackFile => {
            *pack = Pack::new(PFHVersion::PFH6);
            Reaction::Nothing
        },
        Command::NewPackFile(version, game_version) => {
            let mut new = Pack::new(version);
            match game_version {
                Some(v) => {
                    new.header.game_version = v;
                },
                None => {},
            }
            *pack = new;
            Reaction::Nothing
        },
        Command::OpenPackFile(data, lazy) => match Pack::read(data.as_slice(), &None, lazy) {
            Ok(read) => {
                let info = read.info();
                *pack = read;
                Reaction::Reply(Response::ContainerInfo(info))
            },
            Err(e) => Reaction::Reply(Response::Error(e)),
        },
        Command::SavePackFile(options) => match pack.save(&options) {
            Ok(bytes) => Reaction::Reply(Response::Saved(bytes)),
            Err(e) => Reaction::Reply(Response::Error(e)),
        },
        Command::SetPackFileType(file_type) => {
            pack.header.pfh_file_type = file_type;
            Reaction::Nothing
        },
        Command::ChangeIndexIncludesTimestamp(state) => {
            let bits: u32 = pack.header.bitmask.bits;
            pack.header.bitmask = PFHFlags {
                bits: if state {
                    bits | HAS_INDEX_WITH_TIMESTAMPS
                } else {
                    bits & !HAS_INDEX_WITH_TIMESTAMPS
                },
            };
            Reaction::Nothing
        },
        Command::GetDependencyPackFilesList => Reaction::Reply(
            Response::VecString(clone_strings(&pack.dependencies)),
        ),
        Command::SetDependencyPackFilesList(names) => {
            pack.set_dependencies(names);
            Reaction::Nothing
        },
        Command::GetPackFileDataForTreeView => Reaction::Reply(
            Response::ContainerInfoVecRFileInfo(pack.info(), pack.infos()),
        ),
        Command::GetRFileInfo(path) => file_info_reply(pack, path.as_str()),
        Command::GetPackedFilesInfo(paths) => Reaction::Reply(
            Response::VecRFileInfo(pack.infos_at(&paths)),
        ),
        Command::FileFromLocalPack(path) => file_copy_reply(pack, path.as_str()),
        Command::GetPackedFileRawData(path) => file_data_reply(pack, path.as_str()),
        Command::DeletePackedFiles(paths) => {
            let deleted = pack.remove_all(&paths);
            Reaction::Reply(Response::VecString(deleted))
        },
        Command::GetPackSettings => Reaction::Reply(Response::VecU8(pack.settings.clone())),
        Command::SetPackSettings(settings) => {
            pack.set_settings(settings);
            Reaction::Nothing
        },
    }
}

} // verus!
