use rpfm_lib::error::{Entity, RLibError};
use rpfm_lib::pack::file_type::FileType;
use rpfm_lib::pack::pfh6::SaveOptions;
use rpfm_lib::pack::{PFHVersion, Pack, RFile};

fn options() -> SaveOptions {
    SaveOptions {
        allow_editing_of_ca_packfiles: false,
        spoof_ca_authoring_tool: false,
        timestamp: 0x01020304,
        game_version: None,
    }
}

/// Reads the paths of the index of a pack of version 6 without flags.
fn index_paths(bytes: &[u8]) -> Vec<String> {
    let dependencies_size = u32::from_le_bytes([bytes[12], bytes[13], bytes[14], bytes[15]]) as usize;
    let count = u32::from_le_bytes([bytes[16], bytes[17], bytes[18], bytes[19]]) as usize;
    let mut at = 308 + dependencies_size;
    let mut paths = vec![];
    for _ in 0..count {
        at += 5;
        let end = at + bytes[at..].iter().position(|b| *b == 0).unwrap();
        paths.push(String::from_utf8(bytes[at..end].to_vec()).unwrap());
        at = end + 1;
    }
    paths
}

#[test]
fn save_orders_entries_without_regard_to_case() {
    let mut pack = Pack::new(PFHVersion::PFH6);
    pack.insert(RFile::new_from_vec("ab", vec![1]));
    pack.insert(RFile::new_from_vec("Ab", vec![2]));
    pack.insert(RFile::new_from_vec("aa", vec![3]));
    let bytes = pack.save(&options()).unwrap();
    let paths = index_paths(&bytes);
    assert_eq!(paths, vec!["aa", "Ab", "ab", "settings.rpfm_reserved"]);
}

#[test]
fn pack_round_trip_pfh6() {
    let mut pack = Pack::new(PFHVersion::PFH6);
    pack.set_dependencies(vec!["base.pack".to_owned()]);
    pack.set_notes(Some("hello".to_owned()));
    pack.set_settings(b"{}".to_vec());
    pack.insert(RFile::new_from_vec("db/units_tables/data", vec![1, 2, 3]));
    pack.insert(RFile::new_from_vec("text/readme.txt", vec![4, 5]));
    let bytes = pack.save(&options()).unwrap();
    assert_eq!(&bytes[0..4], b"PFH6");

    let mut read = Pack::read(&bytes, &None, false).unwrap();
    assert_eq!(read.dependencies, vec!["base.pack".to_owned()]);
    assert_eq!(read.notes, Some("hello".to_owned()));
    assert_eq!(read.settings, b"{}".to_vec());
    assert_eq!(read.files.len(), 2);
    assert_eq!(read.files[0].path, "db/units_tables/data");
    assert_eq!(read.files[0].cached().unwrap(), &vec![1, 2, 3]);
    assert_eq!(read.files[1].path, "text/readme.txt");
    assert_eq!(read.header.timestamp, 0x01020304);

    let again = read.save(&options()).unwrap();
    assert_eq!(again, bytes);
}

#[test]
fn pack_round_trip_pfh0() {
    let mut pack = Pack::new(PFHVersion::PFH0);
    pack.insert(RFile::new_from_vec("b/file.bin", vec![9, 9, 9]));
    pack.insert(RFile::new_from_vec("a/file.bin", vec![7]));
    let bytes = pack.save(&options()).unwrap();
    assert_eq!(&bytes[0..4], b"PFH0");
    let mut read = Pack::read(&bytes, &None, false).unwrap();
    assert_eq!(read.files.len(), 2);
    assert_eq!(read.files[0].path, "a/file.bin");
    assert_eq!(read.files[0].cached().unwrap(), &vec![7]);
    let again = read.save(&options()).unwrap();
    assert_eq!(again, bytes);
}

#[test]
fn unsupported_pack_version_is_refused() {
    let mut bytes = b"PFH4".to_vec();
    bytes.extend_from_slice(&[3, 0, 0, 0]);
    bytes.extend_from_slice(&[0; 64]);
    let r = Pack::read(&bytes, &None, true);
    assert_eq!(r.err(), Some(RLibError::DecodingUnsupportedVersion(Entity::Pack, 4)));
}

#[test]
fn lazy_files_are_loaded_on_demand() {
    let mut pack = Pack::new(PFHVersion::PFH6);
    pack.insert(RFile::new_from_vec("x.bin", vec![1, 2, 3, 4]));
    let bytes = pack.save(&options()).unwrap();
    let mut read = Pack::read(&bytes, &None, true).unwrap();
    assert_eq!(read.files[0].cached().err(), Some(RLibError::FileDataNotInMemory));
    read.files[0].load(&bytes);
    assert_eq!(read.files[0].cached().unwrap(), &vec![1, 2, 3, 4]);
}

#[test]
fn type_filter_skips_other_files() {
    let mut pack = Pack::new(PFHVersion::PFH6);
    pack.insert(RFile::new_from_vec("text/a.txt", vec![1]));
    pack.insert(RFile::new_from_vec("text/b.loc", vec![2]));
    let bytes = pack.save(&options()).unwrap();
    let read = Pack::read(&bytes, &Some(vec![FileType::Loc]), true).unwrap();
    assert_eq!(read.files.len(), 1);
    assert_eq!(read.files[0].path, "text/b.loc");
}

#[test]
fn read_pack_with_extended_header_and_padded_data() {
    let flags: u32 = 0x100 | 0x10;
    let mut index = vec![];
    for (path, size) in [("a.bin", 3u32), ("b.bin", 8u32), ("c.bin", 9u32)] {
        index.extend_from_slice(&size.to_le_bytes());
        index.extend_from_slice(path.as_bytes());
        index.push(0);
    }
    let mut bytes = b"PFH6".to_vec();
    bytes.extend_from_slice(&(flags | 1).to_le_bytes());
    bytes.extend_from_slice(&0u32.to_le_bytes());
    bytes.extend_from_slice(&0u32.to_le_bytes());
    bytes.extend_from_slice(&3u32.to_le_bytes());
    bytes.extend_from_slice(&(index.len() as u32).to_le_bytes());
    bytes.resize(328, 0);
    bytes.extend_from_slice(&index);
    // The data starts at the next multiple of eight, and every file takes a multiple of
    // eight bytes.
    let first_data = (bytes.len() + 7) / 8 * 8;
    bytes.resize(first_data, 0xEE);
    bytes.extend_from_slice(&[1; 8]);
    bytes.extend_from_slice(&[2; 8]);
    bytes.extend_from_slice(&[3; 16]);
    let data_end = bytes.len();
    // Packs of this sort end with a footer.
    bytes.extend_from_slice(&[0; 256]);

    let pack = Pack::read(&bytes, &None, true).unwrap();
    assert_eq!(pack.header.pfh_file_type, rpfm_lib::pack::PFHFileType::Release);
    assert_eq!(pack.header.extra_subheader_data.len(), 276);
    let starts: Vec<(u64, u32)> = pack
        .files
        .iter()
        .map(|f| match f.data {
            rpfm_lib::pack::FileData::OnDisk { start, size, is_compressed, is_encrypted } => {
                assert!(!is_compressed);
                assert_eq!(is_encrypted, Some(PFHVersion::PFH6));
                (start, size)
            },
            _ => panic!("the files stay in the source"),
        })
        .collect();
    let first = first_data as u64;
    assert_eq!(starts, vec![(first, 3), (first + 8, 8), (first + 16, 9)]);

    // Without the footer the sizes do not add up.
    assert_eq!(
        Pack::read(&bytes[..data_end], &None, true).err(),
        Some(RLibError::PackFileSizeIsNotWhatWeExpect(data_end as u64, data_end as u64))
    );
}

#[test]
fn compression_byte_of_the_index_is_read() {
    let mut pack = Pack::new(PFHVersion::PFH6);
    pack.insert(RFile::new_from_vec("a.bin", vec![1, 2, 3]));
    pack.files[0].should_be_compressed = true;
    pack.files[0].set_processed_data(vec![7, 7], true);
    let bytes = pack.save(&options()).unwrap();
    assert_eq!(bytes[308 + 4], 1);
    let read = Pack::read(&bytes, &None, false).unwrap();
    assert!(read.files[0].should_be_compressed);
    assert!(matches!(
        read.files[0].data,
        rpfm_lib::pack::FileData::OnMemory { is_compressed: true, .. }
    ));
    assert_eq!(read.files[0].cached().unwrap(), &vec![7, 7]);
}

#[test]
fn paths_are_kept_with_slashes_in_memory_and_backslashes_in_the_pack() {
    let mut pack = Pack::new(PFHVersion::PFH6);
    pack.insert(RFile::new_from_vec("ui/skins/a.png", vec![1]));
    let bytes = pack.save(&options()).unwrap();
    assert_eq!(index_paths(&bytes), vec!["settings.rpfm_reserved", "ui\\skins\\a.png"]);
    let read = Pack::read(&bytes, &None, true).unwrap();
    assert_eq!(read.files[0].path, "ui/skins/a.png");
}

#[test]
fn spoofed_authoring_tool_and_game_version() {
    let mut pack = Pack::new(PFHVersion::PFH6);
    let bytes = pack
        .save(&SaveOptions {
            allow_editing_of_ca_packfiles: false,
            spoof_ca_authoring_tool: true,
            timestamp: 5,
            game_version: Some(77),
        })
        .unwrap();
    assert_eq!(&bytes[24..28], &5u32.to_le_bytes());
    assert_eq!(&bytes[28..32], &0x1234_5678u32.to_le_bytes());
    assert_eq!(&bytes[32..36], &1u32.to_le_bytes());
    assert_eq!(&bytes[36..40], &77u32.to_le_bytes());
    assert_eq!(&bytes[44..52], b"CA_TOOL\0");
    assert_eq!(pack.header.authoring_tool, "CA_TOOL");
    assert_eq!(pack.header.game_version, 77);
    assert_eq!(bytes.len(), 308 + 4 + 1 + "settings.rpfm_reserved".len() + 1);

    // Packs of the kinds that the game ships are written only where that is allowed.
    pack.header.pfh_file_type = rpfm_lib::pack::PFHFileType::Release;
    assert_eq!(pack.save(&options()).err(), Some(RLibError::PackFileIsNonEditable));
    let mut allowed = options();
    allowed.allow_editing_of_ca_packfiles = true;
    assert!(pack.save(&allowed).is_ok());
}
