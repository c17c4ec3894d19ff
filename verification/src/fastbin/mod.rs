//! Signed, versioned binary blocks, each made of blocks that carry a version of their own.

use vstd::prelude::*;
use vstd::slice::slice_subrange;

use crate::binary::{
    le_u64, lemma_subrange_join, parse_u16, read_u64, u16_bytes, write_all, write_u16,
};
use crate::error::{Entity, RLibError, Result};
use crate::fastbin::battlefield_building_list::BattlefieldBuildingList;
use crate::fastbin::capture_location_set::CaptureLocationSet;
use crate::fastbin::common::{or_fault, take_u16, Block};
use crate::fastbin::custom_material_mesh_list::CustomMaterialMeshList;
use crate::fastbin::playable_area::PlayableArea;
use crate::fastbin::point_light::PointLightList;
use crate::fastbin::prefix::{lemma_cut, lemma_join, lemma_u16_prefix};
use crate::fastbin::read_back::{
    after, lemma_split, lemma_stands, lemma_stands_at_start, lemma_u16_read_back, stands,
};
use crate::fastbin::prefab_instance_list::PrefabInstanceList;
use crate::fastbin::zones_template_list::ZonesTemplateList;
use crate::text::bytes_eq;

pub mod battlefield_building_list;
pub mod building;
pub mod capture_location_set;
pub mod common;
pub mod custom_material_mesh_list;
pub mod flags;
pub mod playable_area;
pub mod point_light;
pub mod prefab_instance_list;
pub mod prefix;
pub mod read_back;
pub mod zones_template_list;

verus! {

/// The extension of the files that hold battlefield data.
pub const EXTENSION: &'static str = ".bmd";

/// The eight bytes that such a file starts with: `FASTBIN0`.
pub open spec fn signature() -> Seq<u8> {
    seq![0x46u8, 0x41, 0x53, 0x54, 0x42, 0x49, 0x4E, 0x30]
}

/// In a file that starts with the signature and a version, the signature and the version
/// are read, and the rest stands behind them.
pub proof fn lemma_front(version: u16, body: Seq<u8>)
    ensures
        ({
            let data = signature() + u16_bytes(version) + body;
            &&& data.len() >= 10
            &&& data.subrange(0, 8) == signature()
            &&& parse_u16(data, 8) == Ok::<(u16, int), RLibError>((version, 10))
            &&& stands(data, 10, data.len() as int, body)
        }),
{
    let front = signature() + u16_bytes(version);
    let data = front + body;
    let end = data.len() as int;
    lemma_stands_at_start(data, Seq::empty());
    assert(data + Seq::<u8>::empty() =~= data);
    lemma_split(data, 0, end, front, body);
    lemma_split(data, 0, after(0, front), signature(), u16_bytes(version));
    lemma_u16_read_back(version, data, after(0, signature()), after(0, front));
    lemma_stands(data, 0, after(0, signature()), signature());
    lemma_stands(data, after(0, signature()), after(0, front), u16_bytes(version));
    assert(signature().len() == 8);
}

/// The eight bytes that such a file starts with.
fn signature_bytes() -> (r: [u8; 8])
    ensures
        r@ == signature(),
{
    let expected: [u8; 8] = [0x46, 0x41, 0x53, 0x54, 0x42, 0x49, 0x4E, 0x30];
    assert(expected@ =~= signature());
    expected
}

/// A buffer that holds the signature, a version and then a rest to its last byte is the
/// three of them one behind the other.
pub proof fn lemma_whole(data: Seq<u8>, version: u16, body: Seq<u8>)
    requires
        10 <= data.len(),
        data.subrange(0, 8) == signature(),
        data.subrange(8, 10) == u16_bytes(version),
        data.subrange(10, data.len() as int) == body,
    ensures
        signature() + u16_bytes(version) + body == data,
{
    lemma_subrange_join(data, 0, 8, 10);
    lemma_subrange_join(data, 0, 10, data.len() as int);
    assert(data.subrange(0, data.len() as int) =~= data);
}

/// Tests that decoding stopped where the data ends.
pub fn check_size_mismatch(position: usize, len: usize) -> (r: Result<()>)
    ensures
        position == len ==> r is Ok,
        position != len ==> r == Err::<(), RLibError>(
            RLibError::DecodingMismatchSize(position, len),
        ),
{
    if position != len {
        Err(RLibError::DecodingMismatchSize(position, len))
    } else {
        Ok(())
    }
}

/// A whole file of battlefield data, decoded.
#[derive(Debug)]
pub struct FastBin {
    pub serialise_version: u16,
    pub battlefield_building_list: BattlefieldBuildingList,
    pub capture_location_set: CaptureLocationSet,
    pub zones_template_list: ZonesTemplateList,
    pub prefab_instance_list: PrefabInstanceList,
    pub point_light_list: PointLightList,
    pub playable_area: PlayableArea,
    pub custom_material_mesh_list: CustomMaterialMeshList,
}

impl FastBin {
    /// True when nothing is set: every number is zero, every switch is off, every text
    /// and every list is empty, and every part is of version 0 with nothing set.
    pub open spec fn is_blank(&self) -> bool {
        self.battlefield_building_list.serialise_version == 0
            && self.battlefield_building_list.is_blank()
            && self.capture_location_set.serialise_version == 0
            && self.capture_location_set.is_blank()
            && self.zones_template_list.serialise_version == 0
            && self.zones_template_list.is_blank()
            && self.prefab_instance_list.serialise_version == 0
            && self.prefab_instance_list.is_blank()
            && self.point_light_list.serialise_version == 0
            && self.point_light_list.is_blank()
            && self.playable_area.serialise_version == 0
            && self.playable_area.is_blank()
            && self.custom_material_mesh_list.serialise_version == 0
            && self.custom_material_mesh_list.is_blank()
    }

    /// The file of the given version with nothing set.
    pub fn new(serialise_version: u16) -> (r: FastBin)
        ensures
            r.serialise_version == serialise_version,
            r.is_blank(),
    {
        FastBin {
            serialise_version,
            battlefield_building_list: BattlefieldBuildingList::new(0),
            capture_location_set: CaptureLocationSet::new(0),
            zones_template_list: ZonesTemplateList::new(0),
            prefab_instance_list: PrefabInstanceList::new(0),
            point_light_list: PointLightList::new(0),
            playable_area: PlayableArea::new(0),
            custom_material_mesh_list: CustomMaterialMeshList::new(0),
        }
    }

    /// The bytes of the file in version 27, behind the version.
    pub open spec fn spec_body_v27(&self) -> Seq<u8> {
        self.battlefield_building_list.spec_bytes()
            + self.capture_location_set.spec_bytes()
            + self.zones_template_list.spec_bytes()
            + self.prefab_instance_list.spec_bytes()
            + self.point_light_list.spec_bytes()
            + self.playable_area.spec_bytes()
            + self.custom_material_mesh_list.spec_bytes()
    }

    /// What stands against writing the file in version 27, where anything does.
    pub open spec fn spec_fault_v27(&self) -> Option<RLibError> {
        or_fault(
            self.battlefield_building_list.spec_fault(),
            or_fault(
                self.capture_location_set.spec_fault(),
                or_fault(
                    self.zones_template_list.spec_fault(),
                    or_fault(
                        self.prefab_instance_list.spec_fault(),
                        or_fault(
                            self.point_light_list.spec_fault(),
                            or_fault(
                                self.playable_area.spec_fault(),
                                self.custom_material_mesh_list.spec_fault(),
                            ),
                        ),
                    ),
                ),
            ),
        )
    }

    /// Where reading the file in version 27 ends.
    pub open spec fn spec_end_v27(data: Seq<u8>, pos: int) -> core::result::Result<int, RLibError> {
        match BattlefieldBuildingList::spec_end(data, pos) {
            Err(e) => Err(e),
            Ok(mark1) => match CaptureLocationSet::spec_end(data, mark1) {
                Err(e) => Err(e),
                Ok(mark2) => match ZonesTemplateList::spec_end(data, mark2) {
                    Err(e) => Err(e),
                    Ok(mark3) => match PrefabInstanceList::spec_end(data, mark3) {
                        Err(e) => Err(e),
                        Ok(mark4) => match PointLightList::spec_end(data, mark4) {
                            Err(e) => Err(e),
                            Ok(mark5) => match PlayableArea::spec_end(data, mark5) {
                                Err(e) => Err(e),
                                Ok(mark6) => CustomMaterialMeshList::spec_end(data, mark6),
                            },
                        },
                    },
                },
            },
        }
    }

    /// Reads the file as version 27 has it. On failure `self` stays as it was.
    #[verifier::rlimit(40)]
    pub fn read_v27(&mut self, data: &[u8], index: &mut usize) -> (r: Result<()>)
        ensures
            match FastBin::spec_end_v27(data@, *old(index) as int) {
                Ok(end) => r is Ok && *final(index) == end && *old(index) <= end <= data@.len()
                    && final(self).serialise_version == old(self).serialise_version
                    && final(self).spec_fault_v27() is None
                    && final(self).spec_body_v27() == data@.subrange(*old(index) as int, end),
                Err(e) => r == Err::<(), RLibError>(e) && *final(index) == *old(index)
                    && *final(self) == *old(self),
            },
    {
        let mut at: usize = *index;
        let ghost mark0 = at as int;
        let battlefield_building_list = BattlefieldBuildingList::decode(data, &mut at)?;
        let ghost mark1 = at as int;
        let capture_location_set = CaptureLocationSet::decode(data, &mut at)?;
        let ghost mark2 = at as int;
        let zones_template_list = ZonesTemplateList::decode(data, &mut at)?;
        let ghost mark3 = at as int;
        let prefab_instance_list = PrefabInstanceList::decode(data, &mut at)?;
        let ghost mark4 = at as int;
        let point_light_list = PointLightList::decode(data, &mut at)?;
        let ghost mark5 = at as int;
        let playable_area = PlayableArea::decode(data, &mut at)?;
        let ghost mark6 = at as int;
        let custom_material_mesh_list = CustomMaterialMeshList::decode(data, &mut at)?;
        let ghost mark7 = at as int;
        self.battlefield_building_list = battlefield_building_list;
        self.capture_location_set = capture_location_set;
        self.zones_template_list = zones_template_list;
        self.prefab_instance_list = prefab_instance_list;
        self.point_light_list = point_light_list;
        self.playable_area = playable_area;
        self.custom_material_mesh_list = custom_material_mesh_list;
        proof {
            lemma_subrange_join(data@, mark0, mark1, mark2);
            lemma_subrange_join(data@, mark0, mark2, mark3);
            lemma_subrange_join(data@, mark0, mark3, mark4);
            lemma_subrange_join(data@, mark0, mark4, mark5);
            lemma_subrange_join(data@, mark0, mark5, mark6);
            lemma_subrange_join(data@, mark0, mark6, mark7);
        }
        *index = at;
        Ok(())
    }

    /// Appends the file as version 27 has it. On failure nothing is appended.
    #[verifier::rlimit(40)]
    pub fn write_v27(&self, buffer: &mut Vec<u8>) -> (r: Result<()>)
        ensures
            match self.spec_fault_v27() {
                None => r is Ok && final(buffer)@ == old(buffer)@ + self.spec_body_v27(),
                Some(e) => r == Err::<(), RLibError>(e) && final(buffer)@ == old(buffer)@,
            },
    {
        let mut out: Vec<u8> = Vec::new();
        self.battlefield_building_list.encode(&mut out)?;
        self.capture_location_set.encode(&mut out)?;
        self.zones_template_list.encode(&mut out)?;
        self.prefab_instance_list.encode(&mut out)?;
        self.point_light_list.encode(&mut out)?;
        self.playable_area.encode(&mut out)?;
        self.custom_material_mesh_list.encode(&mut out)?;
        assert(out@ =~= self.spec_body_v27());
        write_all(buffer, out.as_slice());
        Ok(())
    }

}

impl FastBin {
    /// The bytes of the file: the signature, the version, and what the version lays out.
    pub open spec fn spec_bytes(&self) -> Seq<u8> {
        signature() + u16_bytes(self.serialise_version) + self.spec_body_v27()
    }

    /// What stands against writing the file: a version that cannot be written, or a part
    /// that cannot.
    pub open spec fn spec_fault(&self) -> Option<RLibError> {
        if self.serialise_version == 27 {
            self.spec_fault_v27()
        } else {
            Some(
                RLibError::EncodingUnsupportedVersion(
                    Entity::FastBin,
                    self.serialise_version as u32,
                ),
            )
        }
    }

    /// Whether the data is a file that can be read, or why it is not. The signature must be
    /// the expected one, the version one that can be read, and the parts must take the data
    /// to its last byte.
    pub open spec fn spec_check(data: Seq<u8>) -> core::result::Result<(), RLibError> {
        if data.len() < 8 {
            Err(RLibError::DecodingNotEnoughBytes)
        } else if data.subrange(0, 8) != signature() {
            Err(RLibError::DecodingUnsupportedSignature(le_u64(data, 0)))
        } else {
            match parse_u16(data, 8) {
                Err(e) => Err(e),
                Ok((version, next)) => if version != 27 {
                    Err(RLibError::DecodingUnsupportedVersion(Entity::FastBin, version as u32))
                } else {
                    match FastBin::spec_end_v27(data, next) {
                        Err(e) => Err(e),
                        Ok(end) => if end != data.len() {
                            Err(RLibError::DecodingMismatchSize(end as usize, data.len() as usize))
                        } else {
                            Ok(())
                        },
                    }
                },
            }
        }
    }

    /// True when the two hold the same in what version 27 writes.
    pub open spec fn spec_same_v27(&self, other: &Self) -> bool {
        self.battlefield_building_list.spec_same(&other.battlefield_building_list)
            && self.capture_location_set.spec_same(&other.capture_location_set)
            && self.zones_template_list.spec_same(&other.zones_template_list)
            && self.prefab_instance_list.spec_same(&other.prefab_instance_list)
            && self.point_light_list.spec_same(&other.point_light_list)
            && self.playable_area.spec_same(&other.playable_area)
            && self.custom_material_mesh_list.spec_same(&other.custom_material_mesh_list)
    }

    /// True when the two are of one version and hold the same in what that version
    /// writes.
    pub open spec fn spec_same(&self, other: &Self) -> bool {
        self.serialise_version == other.serialise_version && self.spec_same_v27(other)
    }

    /// What version 27 writes of a file, followed by anything, tells what was written.
    pub proof fn lemma_same_v27(a: Self, b: Self, x: Seq<u8>, y: Seq<u8>)
        requires
            a.spec_fault_v27() is None,
            b.spec_fault_v27() is None,
            a.spec_body_v27() + x == b.spec_body_v27() + y,
        ensures
            a.spec_same_v27(&b),
            a.spec_body_v27() == b.spec_body_v27(),
            x == y,
    {
        let ta6 = a.custom_material_mesh_list.spec_bytes() + x;
        let tb6 = b.custom_material_mesh_list.spec_bytes() + y;
        let ta5 = a.playable_area.spec_bytes() + ta6;
        let tb5 = b.playable_area.spec_bytes() + tb6;
        let ta4 = a.point_light_list.spec_bytes() + ta5;
        let tb4 = b.point_light_list.spec_bytes() + tb5;
        let ta3 = a.prefab_instance_list.spec_bytes() + ta4;
        let tb3 = b.prefab_instance_list.spec_bytes() + tb4;
        let ta2 = a.zones_template_list.spec_bytes() + ta3;
        let tb2 = b.zones_template_list.spec_bytes() + tb3;
        let ta1 = a.capture_location_set.spec_bytes() + ta2;
        let tb1 = b.capture_location_set.spec_bytes() + tb2;
        let ha2 = a.battlefield_building_list.spec_bytes() + a.capture_location_set.spec_bytes();
        let hb2 = b.battlefield_building_list.spec_bytes() + b.capture_location_set.spec_bytes();
        let ha3 = ha2 + a.zones_template_list.spec_bytes();
        let hb3 = hb2 + b.zones_template_list.spec_bytes();
        let ha4 = ha3 + a.prefab_instance_list.spec_bytes();
        let hb4 = hb3 + b.prefab_instance_list.spec_bytes();
        let ha5 = ha4 + a.point_light_list.spec_bytes();
        let hb5 = hb4 + b.point_light_list.spec_bytes();
        let ha6 = ha5 + a.playable_area.spec_bytes();
        let hb6 = hb5 + b.playable_area.spec_bytes();
        lemma_join(ha6, a.custom_material_mesh_list.spec_bytes(), x);
        lemma_join(hb6, b.custom_material_mesh_list.spec_bytes(), y);
        lemma_join(ha5, a.playable_area.spec_bytes(), ta6);
        lemma_join(hb5, b.playable_area.spec_bytes(), tb6);
        lemma_join(ha4, a.point_light_list.spec_bytes(), ta5);
        lemma_join(hb4, b.point_light_list.spec_bytes(), tb5);
        lemma_join(ha3, a.prefab_instance_list.spec_bytes(), ta4);
        lemma_join(hb3, b.prefab_instance_list.spec_bytes(), tb4);
        lemma_join(ha2, a.zones_template_list.spec_bytes(), ta3);
        lemma_join(hb2, b.zones_template_list.spec_bytes(), tb3);
        lemma_join(
            a.battlefield_building_list.spec_bytes(),
            a.capture_location_set.spec_bytes(),
            ta2,
        );
        lemma_join(
            b.battlefield_building_list.spec_bytes(),
            b.capture_location_set.spec_bytes(),
            tb2,
        );
        BattlefieldBuildingList::lemma_same(
            a.battlefield_building_list,
            b.battlefield_building_list,
            ta1,
            tb1,
        );
        CaptureLocationSet::lemma_same(a.capture_location_set, b.capture_location_set, ta2, tb2);
        ZonesTemplateList::lemma_same(a.zones_template_list, b.zones_template_list, ta3, tb3);
        PrefabInstanceList::lemma_same(a.prefab_instance_list, b.prefab_instance_list, ta4, tb4);
        PointLightList::lemma_same(a.point_light_list, b.point_light_list, ta5, tb5);
        PlayableArea::lemma_same(a.playable_area, b.playable_area, ta6, tb6);
        CustomMaterialMeshList::lemma_same(
            a.custom_material_mesh_list,
            b.custom_material_mesh_list,
            x,
            y,
        );
    }

    /// The bytes of a file tell what it holds: two files that can be written and are
    /// written as the same bytes hold the same. So what `decode` gives is the only file
    /// that the bytes stand for.
    pub proof fn lemma_same(a: Self, b: Self)
        requires
            a.spec_fault() is None,
            b.spec_fault() is None,
            a.spec_bytes() == b.spec_bytes(),
        ensures
            a.spec_same(&b),
    {
        let none = Seq::<u8>::empty();
        let rest_a = u16_bytes(a.serialise_version) + a.spec_body_v27();
        let rest_b = u16_bytes(b.serialise_version) + b.spec_body_v27();
        lemma_join(signature(), u16_bytes(a.serialise_version), a.spec_body_v27());
        lemma_join(signature(), u16_bytes(b.serialise_version), b.spec_body_v27());
        lemma_cut(signature(), signature(), rest_a, rest_b);
        lemma_u16_prefix(
            a.serialise_version,
            b.serialise_version,
            a.spec_body_v27(),
            b.spec_body_v27(),
        );
        Self::lemma_same_v27(a, b, none, none);
    }

    /// What version 27 writes of a file can be read: where those bytes stand, reading ends
    /// right behind them.
    pub proof fn lemma_read_back_v27(a: Self, data: Seq<u8>, pos: int, end: int)
        requires
            a.spec_fault_v27() is None,
            stands(data, pos, end, a.spec_body_v27()),
        ensures
            Self::spec_end_v27(data, pos) == Ok::<int, RLibError>(end),
    {
        let h2 = a.battlefield_building_list.spec_bytes() + a.capture_location_set.spec_bytes();
        let h3 = h2 + a.zones_template_list.spec_bytes();
        let h4 = h3 + a.prefab_instance_list.spec_bytes();
        let h5 = h4 + a.point_light_list.spec_bytes();
        let h6 = h5 + a.playable_area.spec_bytes();
        let m1 = after(pos, a.battlefield_building_list.spec_bytes());
        let m2 = after(pos, h2);
        let m3 = after(pos, h3);
        let m4 = after(pos, h4);
        let m5 = after(pos, h5);
        let m6 = after(pos, h6);
        lemma_split(data, pos, end, h6, a.custom_material_mesh_list.spec_bytes());
        lemma_split(data, pos, m6, h5, a.playable_area.spec_bytes());
        lemma_split(data, pos, m5, h4, a.point_light_list.spec_bytes());
        lemma_split(data, pos, m4, h3, a.prefab_instance_list.spec_bytes());
        lemma_split(data, pos, m3, h2, a.zones_template_list.spec_bytes());
        lemma_split(
            data,
            pos,
            m2,
            a.battlefield_building_list.spec_bytes(),
            a.capture_location_set.spec_bytes(),
        );
        BattlefieldBuildingList::lemma_read_back(a.battlefield_building_list, data, pos, m1);
        CaptureLocationSet::lemma_read_back(a.capture_location_set, data, m1, m2);
        ZonesTemplateList::lemma_read_back(a.zones_template_list, data, m2, m3);
        PrefabInstanceList::lemma_read_back(a.prefab_instance_list, data, m3, m4);
        PointLightList::lemma_read_back(a.point_light_list, data, m4, m5);
        PlayableArea::lemma_read_back(a.playable_area, data, m5, m6);
        CustomMaterialMeshList::lemma_read_back(a.custom_material_mesh_list, data, m6, end);
    }

    /// What was written can be read: the bytes of a file that can be written are a file
    /// that can be read, to the last byte. With `lemma_same`: what is read from them holds
    /// the same as what was written.
    pub proof fn lemma_read_back(a: Self)
        requires
            a.spec_fault() is None,
        ensures
            FastBin::spec_check(a.spec_bytes()) == Ok::<(), RLibError>(()),
    {
        let data = a.spec_bytes();
        assert(a.serialise_version == 27);
        lemma_front(27, a.spec_body_v27());
        Self::lemma_read_back_v27(a, data, 10, data.len() as int);
        Self::lemma_check(data);
    }

    /// A file with the signature, the version 27 and parts that take it to its last byte
    /// can be read.
    pub proof fn lemma_check(data: Seq<u8>)
        requires
            data.len() >= 10,
            data.subrange(0, 8) == signature(),
            parse_u16(data, 8) == Ok::<(u16, int), RLibError>((27u16, 10)),
            FastBin::spec_end_v27(data, 10) == Ok::<int, RLibError>(data.len() as int),
        ensures
            FastBin::spec_check(data) == Ok::<(), RLibError>(()),
    {
    }

    /// Decodes a file. A file that was decoded can be encoded, and encoding it gives the
    /// bytes that it was decoded from.
    #[verifier::rlimit(40)]
    pub fn decode(data: &[u8]) -> (r: Result<FastBin>)
        ensures
            match FastBin::spec_check(data@) {
                Ok(()) => r is Ok && r->Ok_0.spec_fault() is None && r->Ok_0.spec_bytes() == data@,
                Err(e) => r == Err::<FastBin, RLibError>(e),
            },
    {
        let mut at: usize = 0;
        let found: u64 = read_u64(data, &mut at)?;
        let expected: [u8; 8] = signature_bytes();
        if !bytes_eq(slice_subrange(data, 0, 8), expected.as_slice()) {
            return Err(RLibError::DecodingUnsupportedSignature(found));
        }
        let version = take_u16(data, &mut at)?;
        let mut fastbin = FastBin::new(version);
        match version {
            27 => fastbin.read_v27(data, &mut at)?,
            _ => {
                return Err(RLibError::DecodingUnsupportedVersion(Entity::FastBin, version as u32));
            },
        }
        check_size_mismatch(at, data.len())?;
        proof {
            lemma_whole(data@, version, fastbin.spec_body_v27());
        }
        Ok(fastbin)
    }

    /// Appends the bytes of the file. On failure nothing is appended.
    #[verifier::rlimit(40)]
    pub fn encode(&self, buffer: &mut Vec<u8>) -> (r: Result<()>)
        ensures
            match self.spec_fault() {
                None => r is Ok && final(buffer)@ == old(buffer)@ + self.spec_bytes(),
                Some(e) => r == Err::<(), RLibError>(e) && final(buffer)@ == old(buffer)@,
            },
    {
        let mut out: Vec<u8> = Vec::new();
        let expected: [u8; 8] = signature_bytes();
        write_all(&mut out, expected.as_slice());
        write_u16(&mut out, self.serialise_version);
        match self.serialise_version {
            27 => self.write_v27(&mut out)?,
            _ => {
                return Err(
                    RLibError::EncodingUnsupportedVersion(
                        Entity::FastBin,
                        self.serialise_version as u32,
                    ),
                );
            },
        }
        assert(out@ =~= self.spec_bytes());
        write_all(buffer, out.as_slice());
        Ok(())
    }
}

} // verus!
