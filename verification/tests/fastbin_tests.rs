use rpfm_lib::error::{Entity, RLibError};
use rpfm_lib::fastbin::building::{Building, Properties};
use rpfm_lib::fastbin::capture_location_set::CaptureLocation;
use rpfm_lib::fastbin::common::{Block, Transform};
use rpfm_lib::fastbin::flags::Flags;
use rpfm_lib::fastbin::playable_area::PlayableArea;
use rpfm_lib::fastbin::point_light::PointLight;
use rpfm_lib::fastbin::prefab_instance_list::PrefabInstance;
use rpfm_lib::fastbin::zones_template_list::{Zone, ZonesTemplateList};
use rpfm_lib::fastbin::{check_size_mismatch, FastBin};

fn transform(seed: f32) -> Transform {
    Transform {
        m00: (seed + 0.0).to_bits(),
        m01: (seed + 1.0).to_bits(),
        m02: (seed + 2.0).to_bits(),
        m10: (seed + 3.0).to_bits(),
        m11: (seed + 4.0).to_bits(),
        m12: (seed + 5.0).to_bits(),
        m20: (seed + 6.0).to_bits(),
        m21: (seed + 7.0).to_bits(),
        m22: (seed + 8.0).to_bits(),
        m30: (seed + 9.0).to_bits(),
        m31: (seed + 10.0).to_bits(),
        m32: (seed + 11.0).to_bits(),
    }
}

fn building(version: u16) -> Building {
    let mut b = Building::new(version);
    b.building_id = "gate_01".to_owned();
    b.parent_id = -3;
    b.building_key = "wh_gate".to_owned();
    b.position_type = "ground".to_owned();
    b.transform = transform(1.5);
    b.properties = Properties::new(4);
    b.properties.building_id = "gate_01".to_owned();
    b.properties.starting_damage_unary = 0.25f32.to_bits();
    b.properties.on_fire = true;
    b.height_mode = "BHM_TERRAIN".to_owned();
    b.uid = 12345.0f64.to_bits();
    b
}

#[test]
fn building_v8_layout() {
    let b = building(8);
    let mut body = vec![];
    b.write_v8(&mut body).unwrap();
    // The id of the parent takes two bytes behind the first text.
    assert_eq!(&body[0..2], &7u16.to_le_bytes());
    assert_eq!(&body[2..9], b"gate_01");
    assert_eq!(&body[9..11], &(-3i16).to_le_bytes());

    let mut read = Building::new(8);
    let mut index = 0;
    read.read_v8(&body, &mut index).unwrap();
    assert_eq!(index, body.len());
    assert_eq!(read.building_id, "gate_01");
    assert_eq!(read.parent_id, -3);
    assert_eq!(read.building_key, "wh_gate");
    assert_eq!(read.position_type, "ground");
    assert_eq!(read.transform, transform(1.5));
    assert_eq!(read.properties.serialise_version, 4);
    assert!(read.properties.on_fire);
    assert_eq!(read.height_mode, "BHM_TERRAIN");
}

#[test]
fn building_v11_round_trip() {
    let b = building(11);
    let mut bytes = vec![];
    b.encode(&mut bytes).unwrap();
    assert_eq!(&bytes[0..2], &11u16.to_le_bytes());
    let mut index = 0;
    let read = Building::decode(&bytes, &mut index).unwrap();
    assert_eq!(index, bytes.len());
    assert_eq!(read.parent_id, -3);
    assert_eq!(f64::from_bits(read.uid), 12345.0);
    let mut again = vec![];
    read.encode(&mut again).unwrap();
    assert_eq!(again, bytes);
    // The transform stands before the properties, as it is read.
    let transform_at = 2 + 9 + 4 + 9 + 8;
    assert_eq!(&bytes[transform_at..transform_at + 4], &1.5f32.to_le_bytes());
}

#[test]
fn building_of_unknown_version_is_refused() {
    let bytes = 9u16.to_le_bytes().to_vec();
    let mut index = 0;
    let r = Building::decode(&bytes, &mut index);
    assert_eq!(r.err(), Some(RLibError::DecodingUnsupportedVersion(Entity::Building, 9)));
    assert_eq!(index, 0);
    let mut out = vec![];
    let r = Building::new(9).encode(&mut out);
    assert_eq!(r.err(), Some(RLibError::EncodingUnsupportedVersion(Entity::Building, 9)));
    assert!(out.is_empty());
}

#[test]
fn point_light_v7_round_trip() {
    let mut light = PointLight::new(7);
    light.position.x = 1.0f32.to_bits();
    light.position.y = 2.0f32.to_bits();
    light.position.z = 3.0f32.to_bits();
    light.radius = 10.0f32.to_bits();
    light.colour.r = 0.5f32.to_bits();
    light.animation_type = 2;
    light.falloff_type = "quadratic".to_owned();
    light.lf_relative = 4;
    light.height_mode = "BHM_NONE".to_owned();
    light.light_probes_only = true;
    light.pdlc_mask = 0xFFFF_0000_1234_5678;
    light.flags = Flags::new(4);
    light.flags.summer = true;
    let mut body = vec![];
    light.write_v7(&mut body).unwrap();
    assert_eq!(&body[0..4], &1.0f32.to_le_bytes());
    assert_eq!(body[32], 2);

    let mut read = PointLight::new(7);
    let mut index = 0;
    read.read_v7(&body, &mut index).unwrap();
    assert_eq!(index, body.len());
    assert_eq!(read.position, light.position);
    assert_eq!(read.falloff_type, "quadratic");
    assert_eq!(read.lf_relative, 4);
    assert!(read.light_probes_only);
    assert_eq!(read.pdlc_mask, 0xFFFF_0000_1234_5678);
    assert!(read.flags.summer);
    assert!(!read.flags.winter);
}

#[test]
fn zones_template_list_v2_counts_its_zones() {
    let mut list = ZonesTemplateList::new(2);
    let mut zone = Zone::new(1);
    zone.zone_name = "deploy".to_owned();
    zone.transform = transform(0.0);
    list.zones.push(zone);
    list.zones.push(Zone::new(1));
    let mut body = vec![];
    list.write_v2(&mut body).unwrap();
    assert_eq!(&body[0..4], &2u32.to_le_bytes());
    let mut read = ZonesTemplateList::new(2);
    let mut index = 0;
    read.read_v2(&body, &mut index).unwrap();
    assert_eq!(read.zones.len(), 2);
    assert_eq!(read.zones[0].zone_name, "deploy");
}

#[test]
fn playable_area_versions_differ() {
    let mut area = PlayableArea::new(2);
    area.has_been_set = true;
    let mut v2 = vec![];
    area.encode(&mut v2).unwrap();
    assert_eq!(v2.len(), 2 + 16 + 1);
    area.serialise_version = 3;
    area.valid_location_flags.serialise_version = 1;
    let mut v3 = vec![];
    area.encode(&mut v3).unwrap();
    assert_eq!(v3.len(), 2 + 16 + 1 + 2 + 4);
    let mut index = 0;
    let r = PlayableArea::decode(&[4, 0], &mut index);
    assert_eq!(r.err(), Some(RLibError::DecodingUnsupportedVersion(Entity::PlayableArea, 4)));
}

fn sample_fastbin() -> FastBin {
    let mut fastbin = FastBin::new(27);
    fastbin.battlefield_building_list.serialise_version = 1;
    fastbin.battlefield_building_list.buildings.push(building(11));
    fastbin.battlefield_building_list.buildings.push(building(8));
    fastbin.capture_location_set.serialise_version = 11;
    fastbin.capture_location_set.capture_location_sets.push(vec![CaptureLocation {
        x: 1.0f32.to_bits(),
        y: 2.0f32.to_bits(),
        radius: 3.0f32.to_bits(),
        capture_point_type: "major".to_owned(),
    }]);
    fastbin.capture_location_set.capture_location_sets.push(vec![]);
    fastbin.zones_template_list.serialise_version = 2;
    fastbin.prefab_instance_list.serialise_version = 1;
    fastbin
        .prefab_instance_list
        .prefab_instances
        .push(PrefabInstance { key: "tree".to_owned(), transform: transform(2.0) });
    fastbin.point_light_list.serialise_version = 1;
    fastbin.playable_area.serialise_version = 2;
    fastbin.custom_material_mesh_list.serialise_version = 1;
    fastbin
}

#[test]
fn fastbin_round_trip() {
    let fastbin = sample_fastbin();
    let mut bytes = vec![];
    fastbin.encode(&mut bytes).unwrap();
    assert_eq!(&bytes[0..8], b"FASTBIN0");
    assert_eq!(&bytes[8..10], &27u16.to_le_bytes());
    let read = FastBin::decode(&bytes).unwrap();
    assert_eq!(read.battlefield_building_list.buildings.len(), 2);
    assert_eq!(read.battlefield_building_list.buildings[1].serialise_version, 8);
    assert_eq!(read.capture_location_set.capture_location_sets.len(), 2);
    assert_eq!(read.capture_location_set.capture_location_sets[0][0].capture_point_type, "major");
    assert_eq!(read.prefab_instance_list.prefab_instances[0].key, "tree");
    let mut again = vec![];
    read.encode(&mut again).unwrap();
    assert_eq!(again, bytes);
}

#[test]
fn fastbin_with_unknown_version_is_refused() {
    let mut bytes = b"FASTBIN0".to_vec();
    bytes.extend_from_slice(&26u16.to_le_bytes());
    bytes.extend_from_slice(&[0; 32]);
    let r = FastBin::decode(&bytes);
    assert_eq!(r.err(), Some(RLibError::DecodingUnsupportedVersion(Entity::FastBin, 26)));
    assert_eq!(Entity::FastBin.name(), "FastBin");
}

#[test]
fn fastbin_with_wrong_signature_is_refused() {
    let bytes = b"FASTBIN1\x1b\x00".to_vec();
    let r = FastBin::decode(&bytes);
    assert_eq!(
        r.err(),
        Some(RLibError::DecodingUnsupportedSignature(u64::from_le_bytes(*b"FASTBIN1")))
    );
    assert_eq!(FastBin::decode(b"FAST").err(), Some(RLibError::DecodingNotEnoughBytes));
}

#[test]
fn fastbin_must_end_where_the_data_ends() {
    let mut bytes = vec![];
    sample_fastbin().encode(&mut bytes).unwrap();
    let len = bytes.len();
    bytes.push(0);
    let r = FastBin::decode(&bytes);
    assert_eq!(r.err(), Some(RLibError::DecodingMismatchSize(len, len + 1)));
    assert_eq!(check_size_mismatch(3, 3), Ok(()));
    assert_eq!(check_size_mismatch(3, 4), Err(RLibError::DecodingMismatchSize(3, 4)));
}

#[test]
fn nested_block_with_unknown_version_is_refused() {
    let mut fastbin = sample_fastbin();
    fastbin.playable_area.serialise_version = 9;
    let mut bytes = vec![];
    let r = fastbin.encode(&mut bytes);
    assert_eq!(r.err(), Some(RLibError::EncodingUnsupportedVersion(Entity::PlayableArea, 9)));
    assert!(bytes.is_empty());
}

#[test]
fn new_blocks_hold_nothing() {
    let file = FastBin::new(27);
    assert_eq!(file.serialise_version, 27);
    assert_eq!(file.battlefield_building_list.serialise_version, 0);
    assert!(file.battlefield_building_list.buildings.is_empty());
    assert!(file.zones_template_list.zones.is_empty());
    assert!(file.point_light_list.point_lights.is_empty());
    assert!(!file.playable_area.has_been_set);
    let b = Building::new(11);
    assert_eq!(b.serialise_version, 11);
    assert!(b.building_id.is_empty() && b.building_key.is_empty() && b.height_mode.is_empty());
    assert_eq!((b.parent_id, b.uid, b.transform.m00, b.transform.m32), (0, 0, 0, 0));
    assert_eq!(b.properties.serialise_version, 0);
    let light = PointLight::new(7);
    assert_eq!((light.radius, light.animation_type, light.pdlc_mask), (0, 0, 0));
    assert!(!light.flags.spring && light.falloff_type.is_empty());
}
