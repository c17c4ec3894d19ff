use rpfm_lib::background::{process_command, Command, Reaction, Response};
use rpfm_lib::error::RLibError;
use rpfm_lib::icons::{icon, IconKind, IconType};
use rpfm_lib::pack::crypto::{
    decrypt_index_item_file_length, decrypt_index_item_filename, decrypt_packed_file,
};
use rpfm_lib::pack::file_type::FileType;
use rpfm_lib::pack::order::entry_before;
use rpfm_lib::pack::pfh6::SaveOptions;
use rpfm_lib::pack::save::{sort_records, SaveAction, SaveRecord};
use rpfm_lib::pack::{
    FileData, PFHFileType, PFHFlags, PFHVersion, Pack, RFile, HAS_ENCRYPTED_INDEX,
    HAS_INDEX_WITH_TIMESTAMPS,
};
use rpfm_lib::schema::{head_of_name, tail_of_name, Definition, Field, FieldType};
use rpfm_lib::search::portrait_settings::{
    contains, record_match, CameraSetting, Entry, PortraitSettings, PortraitSettingsMatch,
    PortraitSettingsMatches, Variant,
};
use rpfm_lib::search::{Matches, MatchingMode, SearchOn};
use rpfm_lib::table::decode::set_channel;
use rpfm_lib::table::cells::ColourGroup;
use rpfm_lib::table::encode::{find_by_lower_name, merged_name_of};
use rpfm_lib::uic::UIC;
use rpfm_lib::utils::{create_dark_theme_stylesheet, get_feature_flags};

fn options() -> SaveOptions {
    SaveOptions {
        allow_editing_of_ca_packfiles: false,
        spoof_ca_authoring_tool: false,
        timestamp: 7,
        game_version: None,
    }
}

#[test]
fn file_types_are_guessed_from_paths() {
    assert_eq!(FileType::from_path("db/units_tables/data"), FileType::DB);
    assert_eq!(FileType::from_path("DB/Units_Tables/Data"), FileType::DB);
    assert_eq!(FileType::from_path("db/units_tables"), FileType::Unknown);
    assert_eq!(FileType::from_path("db/a/b/c"), FileType::Unknown);
    assert_eq!(FileType::from_path("db//b"), FileType::Unknown);
    assert_eq!(FileType::from_path("text/names.LOC"), FileType::Loc);
    assert_eq!(FileType::from_path("ui/skins/button.png"), FileType::Image);
    assert_eq!(FileType::from_path("script/main.lua"), FileType::Text);
    assert_eq!(FileType::from_path("terrain/map.bmd"), FileType::BMD);
    assert_eq!(FileType::from_path("x.pack"), FileType::Pack);
    assert_eq!(FileType::from_path("whatever"), FileType::Unknown);
    assert_eq!(FileType::from_lowercase_path("A.LOC"), FileType::Unknown);
    assert!(FileType::DB.is_table());
    assert!(FileType::Loc.is_table());
    assert!(!FileType::Text.is_table());
}

#[test]
fn index_decryption() {
    assert_eq!(decrypt_index_item_file_length(0xE10B_73F4, 0), 0xFFFF_FFFF);
    assert_eq!(decrypt_index_item_file_length(!5u32 ^ 0xE10B_73F4 ^ 1234, 5), 1234);

    let key = b"#:AhppdV-!PEfz&}[]Nv?6w4guU%dF5.fq:n*-qGuhBJJBm&?2tPy!geW/+k#pG?";
    let size_key = 0x2Au8;
    let plain = b"db\\units\\data\0";
    let mut cipher: Vec<u8> =
        plain.iter().enumerate().map(|(i, b)| b ^ !size_key ^ key[i % 64]).collect();
    cipher.extend_from_slice(&[9, 9]);
    let mut index = 0;
    let path = decrypt_index_item_filename(&cipher, size_key, &mut index);
    assert_eq!(path, b"db\\units\\data");
    assert_eq!(index, plain.len());
}

#[test]
fn data_decryption_masks_blocks_of_eight_bytes() {
    let plain: Vec<u8> = (0..21u8).collect();
    let mut cipher = vec![];
    for (i, b) in plain.iter().enumerate() {
        let block = ((i / 8) * 8) as u32;
        let mask = 0x8FEB_2A67_40A6_920Eu64.wrapping_mul((!block) as u64).to_le_bytes();
        cipher.push(b ^ mask[i % 8]);
    }
    assert_eq!(decrypt_packed_file(&cipher), plain);
    assert_eq!(decrypt_packed_file(&[]), Vec::<u8>::new());
}

#[test]
fn read_pack_with_encrypted_index_and_timestamps() {
    let flags = HAS_ENCRYPTED_INDEX | HAS_INDEX_WITH_TIMESTAMPS;
    let key = b"#:AhppdV-!PEfz&}[]Nv?6w4guU%dF5.fq:n*-qGuhBJJBm&?2tPy!geW/+k#pG?";
    let files: [(&[u8], u32, &[u8]); 2] = [(b"a\\b.txt", 111, &[1, 2, 3]), (b"c.bin", 222, &[4])];
    let mut index = vec![];
    for (n, (path, timestamp, data)) in files.iter().enumerate() {
        let after = (files.len() - 1 - n) as u32;
        let size = data.len() as u32;
        index.extend_from_slice(&(size ^ !after ^ 0xE10B_73F4).to_le_bytes());
        index.extend_from_slice(&(timestamp ^ !after ^ 0xE10B_73F4).to_le_bytes());
        index.push(0);
        for (i, b) in path.iter().chain([0u8].iter()).enumerate() {
            index.push(b ^ !(size as u8) ^ key[i % 64]);
        }
    }
    let mut bytes = b"PFH6".to_vec();
    bytes.extend_from_slice(&(flags | 3).to_le_bytes());
    bytes.extend_from_slice(&0u32.to_le_bytes());
    bytes.extend_from_slice(&0u32.to_le_bytes());
    bytes.extend_from_slice(&2u32.to_le_bytes());
    bytes.extend_from_slice(&(index.len() as u32).to_le_bytes());
    bytes.extend_from_slice(&99u32.to_le_bytes());
    bytes.extend_from_slice(&[0; 16]);
    bytes.extend_from_slice(b"CA_TOOL\0");
    bytes.extend_from_slice(&[0; 256]);
    assert_eq!(bytes.len(), 308);
    bytes.extend_from_slice(&index);
    bytes.extend_from_slice(&[1, 2, 3, 4]);

    let pack = Pack::read(&bytes, &None, false).unwrap();
    assert_eq!(pack.header.pfh_file_type, PFHFileType::Mod);
    assert_eq!(pack.header.bitmask, PFHFlags { bits: flags });
    assert_eq!(pack.header.timestamp, 99);
    assert_eq!(pack.header.authoring_tool, "CA_TOOL");
    assert_eq!(pack.files.len(), 2);
    assert_eq!(pack.files[0].path, "a/b.txt");
    assert_eq!(pack.files[0].timestamp, 111);
    assert_eq!(pack.files[0].cached().unwrap(), &vec![1, 2, 3]);
    assert_eq!(pack.files[1].path, "c.bin");
    assert_eq!(pack.files[1].cached().unwrap(), &vec![4]);

    // Such a pack cannot be written back.
    let mut pack = pack;
    assert_eq!(pack.save(&options()).err(), Some(RLibError::PackFileIsNonEditable));
}

#[test]
fn pack_index_errors() {
    assert_eq!(Pack::read(b"PFH6", &None, true).err(), Some(RLibError::PackFileHeaderNotComplete));
    let mut bytes = b"PFH6".to_vec();
    bytes.extend_from_slice(&3u32.to_le_bytes());
    bytes.extend_from_slice(&[0; 100]);
    assert_eq!(Pack::read(&bytes, &None, true).err(), Some(RLibError::PackFileHeaderNotComplete));
    assert_eq!(
        Pack::read(b"XYZ6\0\0\0\0", &None, true).err(),
        Some(RLibError::DecodingUnsupportedSignature(u32::from_le_bytes(*b"XYZ6") as u64))
    );

    let mut pack = Pack::new(PFHVersion::PFH6);
    pack.insert(RFile::new_from_vec("a.bin", vec![1, 2, 3]));
    let good = pack.save(&options()).unwrap();
    // One byte too many behind the data of the last file.
    let mut long = good.clone();
    long.push(0);
    assert_eq!(
        Pack::read(&long, &None, true).err(),
        Some(RLibError::PackFileSizeIsNotWhatWeExpect(long.len() as u64, good.len() as u64))
    );
    // The index is cut off.
    assert_eq!(
        Pack::read(&good[..310], &None, true).err(),
        Some(RLibError::PackFileIndexesNotComplete)
    );
}

#[test]
fn the_bytes_of_a_pack_are_accounted_for() {
    let mut pack = Pack::new(PFHVersion::PFH6);
    pack.set_dependencies(vec!["one.pack".to_owned(), "two.pack".to_owned()]);
    pack.insert(RFile::new_from_vec("a.bin", vec![0; 10]));
    pack.insert(RFile::new_from_vec("b.bin", vec![0; 20]));
    let bytes = pack.save(&options()).unwrap();
    let dependencies_size = u32::from_le_bytes([bytes[12], bytes[13], bytes[14], bytes[15]]);
    let index_size = u32::from_le_bytes([bytes[20], bytes[21], bytes[22], bytes[23]]);
    let read = Pack::read(&bytes, &None, true).unwrap();
    let sizes: u64 = read
        .files
        .iter()
        .map(|f| match f.data {
            FileData::OnDisk { size, .. } => size as u64,
            FileData::OnMemory { .. } => 0,
        })
        .sum();
    let settings = read.settings.len() as u64;
    assert_eq!(308 + dependencies_size as u64 + index_size as u64 + sizes + settings, bytes.len() as u64);
    assert_eq!(dependencies_size, 18);
}

#[test]
fn tables_are_never_compressed() {
    let mut pack = Pack::new(PFHVersion::PFH6);
    pack.insert(RFile::new_from_vec("db/units_tables/data", vec![1]));
    pack.insert(RFile::new_from_vec("text/names.loc", vec![2]));
    pack.insert(RFile::new_from_vec("model.bin", vec![3]));
    pack.set_compression(true);
    assert!(pack.files.iter().all(|f| f.should_be_compressed));
    assert_eq!(pack.files[0].save_action(), SaveAction::Ready);
    assert_eq!(pack.files[1].save_action(), SaveAction::Ready);
    assert_eq!(pack.files[2].save_action(), SaveAction::Compress);
    assert!(!pack.files[0].is_to_be_compressed());
    assert!(pack.files[2].is_to_be_compressed());
    assert!(!pack.files[0].save_record().unwrap().is_compressed);
    assert_eq!(pack.save(&options()).err(), Some(RLibError::FileCompressionPending));

    // The caller compresses what is to be compressed, then the pack can be written.
    pack.files[2].set_processed_data(vec![9, 9], true);
    assert_eq!(pack.files[2].save_action(), SaveAction::Ready);
    let bytes = pack.save(&options()).unwrap();
    let read = Pack::read(&bytes, &None, false).unwrap();
    for file in &read.files {
        let compressed = matches!(file.data, FileData::OnMemory { is_compressed: true, .. });
        assert_eq!(compressed, file.path == "model.bin", "{}", file.path);
    }
    // A compressed table is to be decompressed.
    let mut table = RFile::new_from_vec("db/x/y", vec![1]);
    table.set_processed_data(vec![1], true);
    table.should_be_compressed = true;
    assert_eq!(table.save_action(), SaveAction::Decompress);
    assert_eq!(table.save_record().err(), Some(RLibError::FileCompressionPending));
}

#[test]
fn files_still_in_the_source_cannot_be_written() {
    let mut pack = Pack::new(PFHVersion::PFH6);
    pack.insert(RFile::new_from_vec("a.bin", vec![1]));
    let bytes = pack.save(&options()).unwrap();
    let mut lazy = Pack::read(&bytes, &None, true).unwrap();
    assert_eq!(lazy.files[0].save_action(), SaveAction::Load);
    assert_eq!(lazy.save(&options()).err(), Some(RLibError::FileDataNotInMemory));
}

#[test]
fn records_are_sorted_by_key_then_path() {
    let record = |path: &str| SaveRecord {
        key: path.to_lowercase(),
        path: path.to_owned(),
        timestamp: 0,
        is_compressed: false,
        data: vec![],
    };
    let sorted = sort_records(vec![record("b"), record("ab"), record("Ab"), record("aa"), record("B")]);
    let paths: Vec<&str> = sorted.iter().map(|r| r.path.as_str()).collect();
    assert_eq!(paths, vec!["aa", "Ab", "ab", "B", "b"]);
    assert!(entry_before("a", "A", "a", "a"));
    assert!(!entry_before("b", "b", "a", "a"));
    assert!(entry_before("a", "a", "ab", "ab"));
}

#[test]
fn versions_and_kinds_have_numbers() {
    for n in 0..10 {
        match PFHVersion::from_number(n) {
            Some(version) => assert_eq!(version.number(), n),
            None => assert!(n == 1 || n > 6),
        }
    }
    assert_eq!(PFHVersion::from_number(6), Some(PFHVersion::PFH6));
    for v in 0..8 {
        assert_eq!(PFHFileType::from_value(v).value(), v);
    }
    assert_eq!(PFHFileType::from_value(3), PFHFileType::Mod);
    assert_eq!(PFHFileType::from_value(9), PFHFileType::Other(9));
    assert!(PFHFlags { bits: 0x1C0 }.contains(HAS_INDEX_WITH_TIMESTAMPS));
    assert!(!PFHFlags { bits: 0x100 }.contains(HAS_ENCRYPTED_INDEX));
}

#[test]
fn insert_remove_rename() {
    let mut pack = Pack::new(PFHVersion::PFH6);
    pack.insert(RFile::new_from_vec("a", vec![1]));
    pack.insert(RFile::new_from_vec("b", vec![2]));
    pack.insert(RFile::new_from_vec("a", vec![3]));
    assert_eq!(pack.files.len(), 2);
    assert_eq!(pack.file("a").unwrap().cached().unwrap(), &vec![3]);
    assert!(pack.file("c").is_none());
    assert!(pack.rename("a", "b"));
    assert_eq!(pack.files.len(), 1);
    assert_eq!(pack.file("b").unwrap().cached().unwrap(), &vec![3]);
    assert!(!pack.rename("zz", "y"));
    assert!(pack.remove("b").is_some());
    assert!(pack.remove("b").is_none());
    assert!(pack.files.is_empty());
    pack.insert(RFile::new_from_vec("db/t/one", vec![]));
    pack.insert(RFile::new_from_vec("db/t/two", vec![]));
    pack.insert(RFile::new_from_vec("db/u/one", vec![]));
    pack.insert(RFile::new_from_vec("text/a.txt", vec![]));
    assert_eq!(pack.paths_by_type(&vec![FileType::DB], "db/t/"), vec!["db/t/one", "db/t/two"]);
    assert_eq!(pack.paths_by_type(&vec![FileType::Text, FileType::DB], "").len(), 4);
}

#[test]
fn requests_are_handled_one_at_a_time() {
    let mut pack = Pack::new(PFHVersion::PFH6);
    pack.insert(RFile::new_from_vec("a.bin", vec![1, 2]));
    pack.insert(RFile::new_from_vec("b.bin", vec![3]));
    assert!(matches!(process_command(&mut pack, Command::Exit), Reaction::Stop));
    assert!(matches!(
        process_command(&mut pack, Command::SetPackFileType(PFHFileType::Movie)),
        Reaction::Nothing
    ));
    assert_eq!(pack.header.pfh_file_type, PFHFileType::Movie);
    process_command(&mut pack, Command::ChangeIndexIncludesTimestamp(true));
    assert_eq!(pack.header.bitmask.bits, HAS_INDEX_WITH_TIMESTAMPS);
    process_command(&mut pack, Command::ChangeIndexIncludesTimestamp(false));
    assert_eq!(pack.header.bitmask.bits, 0);
    process_command(&mut pack, Command::SetDependencyPackFilesList(vec!["x.pack".to_owned()]));
    match process_command(&mut pack, Command::GetDependencyPackFilesList) {
        Reaction::Reply(Response::VecString(names)) => assert_eq!(names, vec!["x.pack"]),
        other => panic!("{:?}", other),
    }
    match process_command(&mut pack, Command::GetRFileInfo("a.bin".to_owned())) {
        Reaction::Reply(Response::OptionRFileInfo(Some(info))) => {
            assert_eq!(info.path, "a.bin");
            assert!(info.is_in_memory);
            assert_eq!(info.file_type, FileType::Unknown);
        },
        other => panic!("{:?}", other),
    }
    assert!(matches!(
        process_command(&mut pack, Command::GetRFileInfo("zz".to_owned())),
        Reaction::Reply(Response::OptionRFileInfo(None))
    ));
    assert!(matches!(
        process_command(&mut pack, Command::GetPackedFileRawData("zz".to_owned())),
        Reaction::Reply(Response::Error(RLibError::FileNotFound))
    ));
    match process_command(&mut pack, Command::GetPackedFileRawData("a.bin".to_owned())) {
        Reaction::Reply(Response::VecU8(data)) => assert_eq!(data, vec![1, 2]),
        other => panic!("{:?}", other),
    }
    let saved = match process_command(&mut pack, Command::SavePackFile(options())) {
        Reaction::Reply(Response::Saved(bytes)) => bytes,
        other => panic!("{:?}", other),
    };
    match process_command(
        &mut pack,
        Command::DeletePackedFiles(vec!["a.bin".to_owned(), "zz".to_owned(), "a.bin".to_owned()]),
    ) {
        Reaction::Reply(Response::VecString(deleted)) => assert_eq!(deleted, vec!["a.bin"]),
        other => panic!("{:?}", other),
    }
    assert_eq!(pack.files.len(), 1);
    assert!(matches!(process_command(&mut pack, Command::ResetPackFile), Reaction::Nothing));
    assert!(pack.files.is_empty());
    match process_command(&mut pack, Command::OpenPackFile(saved, false)) {
        Reaction::Reply(Response::ContainerInfo(info)) => {
            assert_eq!(info.pfh_version, PFHVersion::PFH6);
            assert_eq!(info.pfh_file_type, PFHFileType::Movie);
            assert_eq!(info.timestamp, 7);
        },
        other => panic!("{:?}", other),
    }
    assert_eq!(pack.files.len(), 2);
    assert!(matches!(
        process_command(&mut pack, Command::OpenPackFile(vec![1, 2, 3], false)),
        Reaction::Reply(Response::Error(RLibError::PackFileHeaderNotComplete))
    ));
    assert_eq!(pack.files.len(), 2);
    process_command(&mut pack, Command::NewPackFile(PFHVersion::PFH0, Some(5)));
    assert_eq!(pack.header.pfh_version, PFHVersion::PFH0);
    assert_eq!(pack.header.game_version, 5);
    process_command(&mut pack, Command::SetPackSettings(b"{}".to_vec()));
    assert!(matches!(
        process_command(&mut pack, Command::GetPackSettings),
        Reaction::Reply(Response::VecU8(s)) if s == b"{}"
    ));
    pack.header.pfh_version = PFHVersion::PFH3;
    assert!(matches!(
        process_command(&mut pack, Command::SavePackFile(options())),
        Reaction::Reply(Response::Error(RLibError::EncodingUnsupportedVersion(
            rpfm_lib::error::Entity::Pack,
            3
        )))
    ));
}

#[test]
fn icons_follow_the_kind_of_the_file() {
    assert_eq!(icon(&IconType::Pack(true)), IconKind::PackEditable);
    assert_eq!(icon(&IconType::Pack(false)), IconKind::PackLocked);
    assert_eq!(icon(&IconType::File("a/b.JPEG".to_owned())), IconKind::ImageJpg);
    assert_eq!(icon(&IconType::File("a/b.dds".to_owned())), IconKind::ImageGeneric);
    assert_eq!(icon(&IconType::File("a/b.lua".to_owned())), IconKind::TextLua);
    assert_eq!(icon(&IconType::File("a/b.csv".to_owned())), IconKind::TextGeneric);
    assert_eq!(icon(&IconType::File("db/a/b".to_owned())), IconKind::Db);
    assert_eq!(icon(&IconType::File("a/b".to_owned())), IconKind::File);
}

#[test]
fn ui_components() {
    assert!(UIC::is_ui_component(b"Version032rest"));
    assert!(!UIC::is_ui_component(b"Versio"));
    assert!(!UIC::is_ui_component(b"version032"));
    assert_eq!(UIC::read_header(b"Version032rest"), Ok(32));
    assert_eq!(UIC::read_header(b"Versionabc"), Err(RLibError::DecodingNumberError));
    assert_eq!(UIC::read_header(b"Version-01"), Err(RLibError::DecodingNumberError));
    assert_eq!(UIC::read_header(b"Version1"), Err(RLibError::DecodingNotEnoughBytes));
    let uic = UIC::decode(b"Version100").unwrap();
    assert_eq!(uic.version, 100);
    assert_eq!(uic.file_type(), FileType::UIC);
    assert_eq!(uic.encode(), b"Version\x64\0\0\0");
}

#[test]
fn feature_flags() {
    assert_eq!(get_feature_flags(false, false), "None");
    assert_eq!(get_feature_flags(true, false), "support_modern_dds");
    assert_eq!(get_feature_flags(false, true), "support_rigidmodel");
    assert_eq!(get_feature_flags(true, true), "support_modern_dds, support_rigidmodel");
}

fn portraits() -> PortraitSettings {
    PortraitSettings {
        entries: vec![
            Entry {
                id: "wh_main_emp_karl".to_owned(),
                camera_settings_head: CameraSetting { skeleton_node: "head".to_owned() },
                camera_settings_body: Some(CameraSetting { skeleton_node: "Karl_body".to_owned() }),
                variants: vec![Variant {
                    filename: "karl_01".to_owned(),
                    file_diffuse: "ui/portraits/karl.png".to_owned(),
                    file_mask_1: String::new(),
                    file_mask_2: "mask_KARL".to_owned(),
                    file_mask_3: String::new(),
                }],
            },
            Entry {
                id: "wh_main_dwf_thorgrim".to_owned(),
                camera_settings_head: CameraSetting { skeleton_node: "head".to_owned() },
                camera_settings_body: None,
                variants: vec![],
            },
        ],
    }
}

#[test]
fn portrait_settings_search_by_pattern() {
    let found = portraits().search("ui/portraits.bin", "karl", true, &MatchingMode::Pattern);
    assert_eq!(found.path, "ui/portraits.bin");
    let expected = vec![
        PortraitSettingsMatch::new(0, true, false, false, None, "wh_main_emp_karl".to_owned()),
        PortraitSettingsMatch::new(
            0,
            false,
            false,
            false,
            Some((0, true, false, false, false, false)),
            "karl_01".to_owned(),
        ),
        PortraitSettingsMatch::new(
            0,
            false,
            false,
            false,
            Some((0, false, true, false, false, false)),
            "ui/portraits/karl.png".to_owned(),
        ),
    ];
    assert_eq!(found.matches, expected);
    // Without regard to case the pattern must still stand letter for letter.
    let found = portraits().search("p", "karl", false, &MatchingMode::Pattern);
    assert_eq!(found.matches, expected);
    let found = portraits().search("p", "head", true, &MatchingMode::Pattern);
    assert_eq!(found.matches.len(), 2);
    assert!(found.matches.iter().all(|m| m.camera_settings_head));
    assert_eq!(found.matches[1].entry, 1);
}

#[test]
fn portrait_settings_search_by_regex() {
    let mode = MatchingMode::Regex { pattern: "karl(_body)?$".to_owned(), case_insensitive: true };
    let found = portraits().search("p", "ignored", true, &mode);
    let data: Vec<&str> = found.matches.iter().map(|m| m.data.as_str()).collect();
    assert_eq!(data, vec!["wh_main_emp_karl", "Karl_body", "mask_KARL"]);
    assert!(found.matches[1].camera_settings_body);
    assert_eq!(found.matches[2].variant, Some((0, false, false, false, true, false)));
    let mode = MatchingMode::Regex { pattern: "karl$".to_owned(), case_insensitive: false };
    assert_eq!(portraits().search("p", "", true, &mode).matches.len(), 1);
    // An expression that cannot be built matches nothing.
    let mode = MatchingMode::Regex { pattern: "(".to_owned(), case_insensitive: false };
    assert!(portraits().search("p", "", true, &mode).matches.is_empty());
}

#[test]
fn plain_search_helpers() {
    assert!(contains("abcabd", "cab"));
    assert!(contains("abc", ""));
    assert!(contains("", ""));
    assert!(!contains("abc", "abcd"));
    assert!(!contains("abc", "B"));
    let mut found = vec![];
    record_match(&mut found, false, "x", 1, true, false, false, None);
    assert!(found.is_empty());
    record_match(&mut found, true, "x", 1, true, false, false, None);
    assert_eq!(found, vec![PortraitSettingsMatch::new(1, true, false, false, None, "x".to_owned())]);
}

#[test]
fn search_options() {
    let mut on = SearchOn {
        anim: false,
        anim_fragment: false,
        anim_pack: false,
        anims_table: false,
        audio: false,
        bmd: false,
        db: false,
        esf: false,
        group_formations: false,
        image: false,
        loc: false,
        matched_combat: false,
        pack: false,
        portrait_settings: false,
        rigid_model: false,
        sound_bank: false,
        text: false,
        uic: false,
        unit_variant: false,
        unknown: false,
        video: false,
        schema: true,
    };
    assert!(on.types_to_search().is_empty());
    on.video = true;
    on.db = true;
    on.anim = true;
    assert_eq!(on.types_to_search(), vec![FileType::Anim, FileType::DB, FileType::Video]);

    let mut matches = Matches {
        portrait_settings: vec![
            PortraitSettingsMatches::new("a"),
            PortraitSettingsMatches::new("b"),
            PortraitSettingsMatches::new("c"),
        ],
    };
    matches.retain_paths(&vec!["b".to_owned(), "x".to_owned()]);
    let paths: Vec<&str> = matches.portrait_settings.iter().map(|m| m.path.as_str()).collect();
    assert_eq!(paths, vec!["a", "c"]);
}

#[test]
fn names_of_fields() {
    assert_eq!(tail_of_name("primary_colour_r"), "r");
    assert_eq!(tail_of_name("red"), "red");
    assert_eq!(tail_of_name("x_"), "");
    assert_eq!(head_of_name("primary_colour_r"), Some("primary_colour".to_owned()));
    assert_eq!(head_of_name("red"), None);
    assert_eq!(merged_name_of(Some("primary_colour".to_owned())), "primary_colour_hex");
    assert_eq!(merged_name_of(None), "unnamed colour group");
    let empty = ColourGroup { r: None, red: None, g: None, green: None, b: None, blue: None };
    assert_eq!(set_channel(empty, "green", 5).green, Some(5));
    assert_eq!(set_channel(empty, "Green", 5), empty);
    let values = vec![(1, "One".to_owned()), (2, "Two".to_owned())];
    let lower = vec!["one".to_owned(), "two".to_owned()];
    assert_eq!(find_by_lower_name(&values, &lower, "two"), Some(2));
    assert_eq!(find_by_lower_name(&values, &lower, "Two"), None);

    let mut flags = Field::new("flags", FieldType::I16);
    flags.is_bitwise = 2;
    let mut r = Field::new("Tint_R", FieldType::I32);
    r.is_part_of_colour = Some(3);
    let mut kind = Field::new("kind", FieldType::I32);
    kind.enum_values = vec![(0, "a".to_owned())];
    let definition = Definition::new(1, vec![flags, r, kind, Field::new("name", FieldType::StringU8)]);
    let columns = definition.fields_processed();
    let names: Vec<&str> = columns.iter().map(|c| c.name.as_str()).collect();
    assert_eq!(names, vec!["flags_1", "flags_2", "kind", "name", "tint_hex"]);
}

#[test]
fn requests_for_what_is_known_of_files() {
    let mut pack = Pack::new(PFHVersion::PFH6);
    pack.insert(RFile::new_from_vec("db/units_tables/data", vec![1, 2]));
    pack.insert(RFile::new_from_vec("text/b.txt", vec![3]));
    match process_command(&mut pack, Command::GetPackFileDataForTreeView) {
        Reaction::Reply(Response::ContainerInfoVecRFileInfo(info, files)) => {
            assert_eq!(info.pfh_version, PFHVersion::PFH6);
            assert_eq!(info.pfh_file_type, PFHFileType::Mod);
            assert_eq!(files.len(), 2);
            assert_eq!(files[0].path, pack.files[0].path);
            assert_eq!(files[1].path, pack.files[1].path);
        },
        other => panic!("{:?}", other),
    }
    let asked = vec!["text/b.txt".to_owned(), "zz".to_owned(), "db/units_tables/data".to_owned()];
    match process_command(&mut pack, Command::GetPackedFilesInfo(asked)) {
        Reaction::Reply(Response::VecRFileInfo(files)) => {
            assert_eq!(files.len(), 2);
            assert_eq!(files[0].path, "text/b.txt");
            assert_eq!(files[0].file_type, FileType::Text);
            assert_eq!(files[1].path, "db/units_tables/data");
            assert_eq!(files[1].file_type, FileType::DB);
            assert!(files[1].is_in_memory);
        },
        other => panic!("{:?}", other),
    }
    match process_command(&mut pack, Command::FileFromLocalPack("text/b.txt".to_owned())) {
        Reaction::Reply(Response::OptionRFile(Some(file))) => {
            assert_eq!(file.path, "text/b.txt");
            assert_eq!(file.cached().unwrap(), &vec![3]);
        },
        other => panic!("{:?}", other),
    }
    assert!(matches!(
        process_command(&mut pack, Command::FileFromLocalPack("zz".to_owned())),
        Reaction::Reply(Response::OptionRFile(None))
    ));
    assert_eq!(pack.files.len(), 2);
}

#[test]
fn a_saved_pack_holds_its_files_as_they_were_written() {
    let mut pack = Pack::new(PFHVersion::PFH6);
    let plain = vec![1u8, 2, 3, 4, 5, 6, 7, 8, 9, 10];
    // Decrypting is its own inverse: each byte is masked with a key.
    let hidden = decrypt_packed_file(&plain);
    assert_ne!(hidden, plain);
    let mut secret = RFile::new_from_vec("model.bin", vec![]);
    secret.data =
        FileData::OnMemory { data: hidden, is_compressed: false, is_encrypted: Some(PFHVersion::PFH6) };
    secret.should_be_encrypted = Some(PFHVersion::PFH6);
    pack.insert(secret);
    let mut table = RFile::new_from_vec("db/units_tables/data", vec![7]);
    table.should_be_compressed = true;
    pack.insert(table);

    let bytes = pack.save(&options()).unwrap();

    for file in &pack.files {
        assert_eq!(file.should_be_encrypted, None);
        assert!(!file.should_be_compressed, "{}", file.path);
        match &file.data {
            FileData::OnMemory { is_compressed, is_encrypted, .. } => {
                assert!(!is_compressed);
                assert_eq!(*is_encrypted, None);
            },
            other => panic!("{:?}", other),
        }
    }
    assert_eq!(pack.file("model.bin").unwrap().cached().unwrap(), &plain);
    assert_eq!(pack.file("db/units_tables/data").unwrap().cached().unwrap(), &vec![7]);

    let read = Pack::read(&bytes, &None, false).unwrap();
    assert_eq!(read.file("model.bin").unwrap().cached().unwrap(), &plain);
    // Writing again gives the same bytes: the files are now as they are written.
    assert_eq!(pack.save(&options()).unwrap(), bytes);
}

#[test]
fn a_failed_save_leaves_the_marks() {
    let mut pack = Pack::new(PFHVersion::PFH6);
    let mut table = RFile::new_from_vec("db/units_tables/data", vec![7]);
    table.should_be_compressed = true;
    pack.insert(table);
    let mut other = RFile::new_from_vec("model.bin", vec![1]);
    other.should_be_compressed = true;
    pack.insert(other);
    assert_eq!(pack.save(&options()).err(), Some(RLibError::FileCompressionPending));
    assert!(pack.files[0].should_be_compressed);
    assert!(pack.files[1].should_be_compressed);
}

#[test]
fn paths_stay_apart() {
    let mut pack = Pack::new(PFHVersion::PFH6);
    pack.insert(RFile::new_from_vec("a", vec![1]));
    pack.insert(RFile::new_from_vec("b", vec![2]));
    pack.insert(RFile::new_from_vec("c", vec![3]));
    assert!(pack.rename("a", "b"));
    let mut paths: Vec<&str> = pack.files.iter().map(|f| f.path.as_str()).collect();
    paths.sort();
    assert_eq!(paths, vec!["b", "c"]);
    assert_eq!(pack.file("b").unwrap().cached().unwrap(), &vec![1]);
    let bytes = pack.save(&options()).unwrap();
    let read = Pack::read(&bytes, &None, false).unwrap();
    let mut paths: Vec<&str> = read.files.iter().map(|f| f.path.as_str()).collect();
    paths.sort();
    assert_eq!(paths, vec!["b", "c"]);
}

#[test]
fn dark_theme_stylesheet_is_put_together() {
    let sheet = create_dark_theme_stylesheet("/opt/assets");
    assert_eq!(sheet.len(), 3579);
    assert!(sheet.starts_with("\n        /* Normal buttons, with no rounded corners, dark ba"));
    assert!(sheet.ends_with(" 1px;\n            border-color: #101010;\n        }\n\n        "));
    assert_eq!(sheet.matches("#E67E22").count(), 6);
    assert_eq!(sheet.matches("#101010").count(), 6);
    assert_eq!(sheet.matches("#262626").count(), 5);
    assert_eq!(sheet.matches("#181818").count(), 2);
    assert_eq!(sheet.matches("#BBBBBB").count(), 7);
    assert_eq!(sheet.matches("#FAFAFA").count(), 3);
    assert_eq!(sheet.matches("image:url(/opt/assets/icons/checkbox_check.png);").count(), 2);
    assert_eq!(sheet.matches('{').count(), 16);
    assert_eq!(sheet.matches('}').count(), 16);
    let button = format!(
        "        QPushButton:hover {{\n            border-color: {};\n            color: {};\n",
        "#E67E22", "#FAFAFA"
    );
    assert!(sheet.contains(&button));
    assert_eq!(create_dark_theme_stylesheet("").len(), 3579 - 2 * "/opt/assets".len());
}
