//! Buildings of a battlefield, with their properties.

use vstd::prelude::*;

use crate::binary::{
    bool_bytes, parse_u16, sized_string_u8_bytes, u16_bytes, u16_of, u32_bytes, u32_of, u64_bytes,
    write_all, write_bool, write_i32, write_sized_string_u8, write_u16, write_u32, write_u64,
};
use crate::error::{Entity, RLibError, Result};
use crate::fastbin::read_back::{
    after, lemma_bool_read_back, lemma_split, lemma_text_read_back, lemma_u16_read_back,
    lemma_u32_read_back, lemma_u64_read_back, stands,
};
use crate::fastbin::prefix::{
    lemma_bool_prefix, lemma_i32_prefix, lemma_join, lemma_text_prefix, lemma_u16_prefix,
    lemma_u32_prefix, lemma_u64_prefix,
};
use crate::fastbin::common::{
    bool_end, numbers_end_bytes, or_fault, take_bool, take_i16, take_i32, take_text, take_u16,
    take_u32, take_u64, text_end, text_fault, Block, Transform,
};
use crate::binary::lemma_subrange_join;

verus! {

/// The properties of a building.
#[derive(Debug)]
pub struct Properties {
    pub serialise_version: u16,
    pub building_id: String,
    /// How damaged the building is at the start, a float held by its bits.
    pub starting_damage_unary: u32,
    pub on_fire: bool,
    pub start_disabled: bool,
    pub indestructible: bool,
}

/// One building of a battlefield.
#[derive(Debug)]
pub struct Building {
    pub serialise_version: u16,
    pub building_id: String,
    pub parent_id: i32,
    pub building_key: String,
    pub position_type: String,
    pub transform: Transform,
    pub properties: Properties,
    pub height_mode: String,
    /// The unique id of the building, a float held by its bits.
    pub uid: u64,
}

impl Properties {
    /// True when nothing is set: every number is zero, every switch is off, every text
    /// and every list is empty, and every part is of version 0 with nothing set.
    pub open spec fn is_blank(&self) -> bool {
        self.building_id@.len() == 0
            && self.starting_damage_unary == 0
            && !self.on_fire
            && !self.start_disabled
            && !self.indestructible
    }

    /// Properties of the given version with nothing set.
    pub fn new(serialise_version: u16) -> (r: Properties)
        ensures
            r.serialise_version == serialise_version,
            r.is_blank(),
    {
        Properties {
            serialise_version,
            building_id: String::new(),
            starting_damage_unary: 0,
            on_fire: false,
            start_disabled: false,
            indestructible: false,
        }
    }

    /// The bytes of the properties in version 4, behind the version.
    pub open spec fn spec_body_v4(&self) -> Seq<u8> {
        sized_string_u8_bytes(self.building_id@) + u32_bytes(self.starting_damage_unary)
            + bool_bytes(self.on_fire) + bool_bytes(self.start_disabled) + bool_bytes(
            self.indestructible,
        )
    }

    /// Where reading properties of version 4 ends.
    pub open spec fn spec_end_v4(data: Seq<u8>, pos: int) -> core::result::Result<int, RLibError> {
        match text_end(data, pos) {
            Err(e) => Err(e),
            Ok(mark1) => match numbers_end_bytes(data, mark1, 4) {
                Err(e) => Err(e),
                Ok(mark2) => match bool_end(data, mark2) {
                    Err(e) => Err(e),
                    Ok(mark3) => match bool_end(data, mark3) {
                        Err(e) => Err(e),
                        Ok(mark4) => bool_end(data, mark4),
                    },
                },
            },
        }
    }

    /// Reads the properties as version 4 has them. On failure `self` stays as it was.
    pub fn read_v4(&mut self, data: &[u8], index: &mut usize) -> (r: Result<()>)
        ensures
            match Properties::spec_end_v4(data@, *old(index) as int) {
                Ok(end) => r is Ok && *final(index) == end && *old(index) <= end <= data@.len()
                    && final(self).serialise_version == old(self).serialise_version && text_fault(
                    final(self).building_id@,
                ) is None && final(self).spec_body_v4() == data@.subrange(*old(index) as int, end),
                Err(e) => r == Err::<(), RLibError>(e)
                    && *final(index) == *old(index)
                    && *final(self) == *old(self),
            },
    {
        let mut at: usize = *index;
        let building_id = take_text(data, &mut at)?;
        let starting_damage_unary = take_u32(data, &mut at)?;
        let on_fire = take_bool(data, &mut at)?;
        let start_disabled = take_bool(data, &mut at)?;
        let indestructible = take_bool(data, &mut at)?;
        self.building_id = building_id;
        self.starting_damage_unary = starting_damage_unary;
        self.on_fire = on_fire;
        self.start_disabled = start_disabled;
        self.indestructible = indestructible;
        assert(self.spec_body_v4() =~= data@.subrange(*index as int, at as int));
        *index = at;
        Ok(())
    }

    /// Appends the properties as version 4 has them. On failure nothing is appended.
    pub fn write_v4(&self, buffer: &mut Vec<u8>) -> (r: Result<()>)
        ensures
            match text_fault(self.building_id@) {
                None => r is Ok && final(buffer)@ == old(buffer)@ + self.spec_body_v4(),
                Some(e) => r == Err::<(), RLibError>(e) && final(buffer)@ == old(buffer)@,
            },
    {
        write_sized_string_u8(buffer, self.building_id.as_str())?;
        write_u32(buffer, self.starting_damage_unary);
        write_bool(buffer, self.on_fire);
        write_bool(buffer, self.start_disabled);
        write_bool(buffer, self.indestructible);
        assert(buffer@ =~= old(buffer)@ + self.spec_body_v4());
        Ok(())
    }

    /// True when the two hold the same in what version 4 writes.
    pub open spec fn spec_same_v4(&self, other: &Self) -> bool {
        self.building_id@ == other.building_id@
            && self.starting_damage_unary == other.starting_damage_unary
            && self.on_fire == other.on_fire
            && self.start_disabled == other.start_disabled
            && self.indestructible == other.indestructible
    }

    /// What version 4 writes of the properties, followed by anything, tells what was written.
    pub proof fn lemma_same_v4(a: Self, b: Self, x: Seq<u8>, y: Seq<u8>)
        requires
            text_fault(a.building_id@) is None,
            text_fault(b.building_id@) is None,
            a.spec_body_v4() + x == b.spec_body_v4() + y,
        ensures
            a.spec_same_v4(&b),
            a.spec_body_v4() == b.spec_body_v4(),
            x == y,
    {
        let ta4 = bool_bytes(a.indestructible) + x;
        let tb4 = bool_bytes(b.indestructible) + y;
        let ta3 = bool_bytes(a.start_disabled) + ta4;
        let tb3 = bool_bytes(b.start_disabled) + tb4;
        let ta2 = bool_bytes(a.on_fire) + ta3;
        let tb2 = bool_bytes(b.on_fire) + tb3;
        let ta1 = u32_bytes(a.starting_damage_unary) + ta2;
        let tb1 = u32_bytes(b.starting_damage_unary) + tb2;
        let ha2 = sized_string_u8_bytes(a.building_id@) + u32_bytes(a.starting_damage_unary);
        let hb2 = sized_string_u8_bytes(b.building_id@) + u32_bytes(b.starting_damage_unary);
        let ha3 = ha2 + bool_bytes(a.on_fire);
        let hb3 = hb2 + bool_bytes(b.on_fire);
        let ha4 = ha3 + bool_bytes(a.start_disabled);
        let hb4 = hb3 + bool_bytes(b.start_disabled);
        lemma_join(ha4, bool_bytes(a.indestructible), x);
        lemma_join(hb4, bool_bytes(b.indestructible), y);
        lemma_join(ha3, bool_bytes(a.start_disabled), ta4);
        lemma_join(hb3, bool_bytes(b.start_disabled), tb4);
        lemma_join(ha2, bool_bytes(a.on_fire), ta3);
        lemma_join(hb2, bool_bytes(b.on_fire), tb3);
        lemma_join(sized_string_u8_bytes(a.building_id@), u32_bytes(a.starting_damage_unary), ta2);
        lemma_join(sized_string_u8_bytes(b.building_id@), u32_bytes(b.starting_damage_unary), tb2);
        lemma_text_prefix(a.building_id@, b.building_id@, ta1, tb1);
        lemma_u32_prefix(a.starting_damage_unary, b.starting_damage_unary, ta2, tb2);
        lemma_bool_prefix(a.on_fire, b.on_fire, ta3, tb3);
        lemma_bool_prefix(a.start_disabled, b.start_disabled, ta4, tb4);
        lemma_bool_prefix(a.indestructible, b.indestructible, x, y);
    }

    /// What version 4 writes of the properties can be read: where those bytes stand, reading ends
    /// right behind them.
    pub proof fn lemma_read_back_v4(a: Self, data: Seq<u8>, pos: int, end: int)
        requires
            text_fault(a.building_id@) is None,
            stands(data, pos, end, a.spec_body_v4()),
        ensures
            Self::spec_end_v4(data, pos) == Ok::<int, RLibError>(end),
    {
        let h2 = sized_string_u8_bytes(a.building_id@) + u32_bytes(a.starting_damage_unary);
        let h3 = h2 + bool_bytes(a.on_fire);
        let h4 = h3 + bool_bytes(a.start_disabled);
        let m1 = after(pos, sized_string_u8_bytes(a.building_id@));
        let m2 = after(pos, h2);
        let m3 = after(pos, h3);
        let m4 = after(pos, h4);
        lemma_split(data, pos, end, h4, bool_bytes(a.indestructible));
        lemma_split(data, pos, m4, h3, bool_bytes(a.start_disabled));
        lemma_split(data, pos, m3, h2, bool_bytes(a.on_fire));
        lemma_split(
            data,
            pos,
            m2,
            sized_string_u8_bytes(a.building_id@),
            u32_bytes(a.starting_damage_unary),
        );
        lemma_text_read_back(a.building_id@, data, pos, m1);
        lemma_u32_read_back(a.starting_damage_unary, data, m1, m2);
        lemma_bool_read_back(a.on_fire, data, m2, m3);
        lemma_bool_read_back(a.start_disabled, data, m3, m4);
        lemma_bool_read_back(a.indestructible, data, m4, end);
    }
}

impl Block for Properties {
    /// The bytes of the properties: the version, then what the version lays out.
    open spec fn spec_bytes(&self) -> Seq<u8> {
        u16_bytes(self.serialise_version) + self.spec_body_v4()
    }

    /// What stands against writing the properties: a version that cannot be written, or a
    /// text that is too long.
    open spec fn spec_fault(&self) -> Option<RLibError> {
        if self.serialise_version == 4 {
            text_fault(self.building_id@)
        } else {
            Some(
                RLibError::EncodingUnsupportedVersion(
                    Entity::Properties,
                    self.serialise_version as u32,
                ),
            )
        }
    }

    /// Where reading properties at `pos` ends: the version must be one that can be read.
    open spec fn spec_end(data: Seq<u8>, pos: int) -> core::result::Result<int, RLibError> {
        match parse_u16(data, pos) {
            Err(e) => Err(e),
            Ok((version, next)) => if version == 4 {
                Properties::spec_end_v4(data, next)
            } else {
                Err(RLibError::DecodingUnsupportedVersion(Entity::Properties, version as u32))
            },
        }
    }

    /// True when the two are of one version and hold the same in what that version
    /// writes.
    open spec fn spec_same(&self, other: &Self) -> bool {
        self.serialise_version == other.serialise_version
            && (self.serialise_version == 4 ==> self.spec_same_v4(other))
    }

    proof fn lemma_same(a: Self, b: Self, x: Seq<u8>, y: Seq<u8>) {
        let body_a = a.spec_body_v4();
        let body_b = b.spec_body_v4();
        lemma_join(u16_bytes(a.serialise_version), body_a, x);
        lemma_join(u16_bytes(b.serialise_version), body_b, y);
        lemma_u16_prefix(a.serialise_version, b.serialise_version, body_a + x, body_b + y);
        Self::lemma_same_v4(a, b, x, y);
    }

    proof fn lemma_read_back(a: Self, data: Seq<u8>, pos: int, end: int) {
        let body = a.spec_body_v4();
        let mid = after(pos, u16_bytes(a.serialise_version));
        lemma_split(data, pos, end, u16_bytes(a.serialise_version), body);
        lemma_u16_read_back(a.serialise_version, data, pos, mid);
        Self::lemma_read_back_v4(a, data, mid, end);
    }

    fn decode(data: &[u8], index: &mut usize) -> (r: Result<Self>) {
        let mut at: usize = *index;
        let version = take_u16(data, &mut at)?;
        let mut decoded = Properties::new(version);
        let ghost body = at as int;
        match version {
            4 => decoded.read_v4(data, &mut at)?,
            _ => {
                return Err(
                    RLibError::DecodingUnsupportedVersion(Entity::Properties, version as u32),
                );
            },
        }
        proof {
            lemma_subrange_join(data@, *index as int, body, at as int);
        }
        *index = at;
        Ok(decoded)
    }

    fn encode(&self, buffer: &mut Vec<u8>) -> (r: Result<()>) {
        let mut out: Vec<u8> = Vec::new();
        write_u16(&mut out, self.serialise_version);
        match self.serialise_version {
            4 => self.write_v4(&mut out)?,
            _ => {
                return Err(
                    RLibError::EncodingUnsupportedVersion(
                        Entity::Properties,
                        self.serialise_version as u32,
                    ),
                );
            },
        }
        assert(out@ =~= self.spec_bytes());
        write_all(buffer, out.as_slice());
        Ok(())
    }
}

impl Building {
    /// True when nothing is set: every number is zero, every switch is off, every text
    /// and every list is empty, and every part is of version 0 with nothing set.
    pub open spec fn is_blank(&self) -> bool {
        self.building_id@.len() == 0
            && self.parent_id == 0
            && self.building_key@.len() == 0
            && self.position_type@.len() == 0
            && self.transform == (Transform {
                m00: 0, m01: 0, m02: 0, m10: 0, m11: 0, m12: 0,
                m20: 0, m21: 0, m22: 0, m30: 0, m31: 0, m32: 0,
            })
            && self.properties.serialise_version == 0
            && self.properties.is_blank()
            && self.height_mode@.len() == 0
            && self.uid == 0
    }

    /// A building of the given version with nothing set.
    pub fn new(serialise_version: u16) -> (r: Building)
        ensures
            r.serialise_version == serialise_version,
            r.is_blank(),
    {
        Building {
            serialise_version,
            building_id: String::new(),
            parent_id: 0,
            building_key: String::new(),
            position_type: String::new(),
            transform: Transform {
                m00: 0,
                m01: 0,
                m02: 0,
                m10: 0,
                m11: 0,
                m12: 0,
                m20: 0,
                m21: 0,
                m22: 0,
                m30: 0,
                m31: 0,
                m32: 0,
            },
            properties: Properties::new(0),
            height_mode: String::new(),
            uid: 0,
        }
    }

    /// What stands against writing the texts, the transform and the properties of the
    /// building, in the order in which they are written.
    pub open spec fn spec_parts_fault(&self) -> Option<RLibError> {
        or_fault(
            text_fault(self.building_id@),
            or_fault(
                text_fault(self.building_key@),
                or_fault(
                    text_fault(self.position_type@),
                    or_fault(self.properties.spec_fault(), text_fault(self.height_mode@)),
                ),
            ),
        )
    }

    /// The bytes of the building in version 8, behind the version. The id of the parent
    /// takes 16 bits.
    pub open spec fn spec_body_v8(&self) -> Seq<u8> {
        sized_string_u8_bytes(self.building_id@) + u16_bytes(
            (u32_of(self.parent_id) % 0x1_0000) as u16,
        ) + sized_string_u8_bytes(self.building_key@) + sized_string_u8_bytes(self.position_type@)
            + self.transform.spec_bytes() + self.properties.spec_bytes() + sized_string_u8_bytes(
            self.height_mode@,
        )
    }

    /// The bytes of the building in version 11, behind the version.
    pub open spec fn spec_body_v11(&self) -> Seq<u8> {
        sized_string_u8_bytes(self.building_id@) + u32_bytes(u32_of(self.parent_id))
            + sized_string_u8_bytes(self.building_key@) + sized_string_u8_bytes(
            self.position_type@,
        ) + self.transform.spec_bytes() + self.properties.spec_bytes() + sized_string_u8_bytes(
            self.height_mode@,
        ) + u64_bytes(self.uid)
    }

    /// Where reading what versions 8 and 11 share ends, behind the id of the parent of
    /// `parent_bytes` bytes.
    pub open spec fn spec_end_shared(
        data: Seq<u8>,
        pos: int,
        parent_bytes: int,
    ) -> core::result::Result<
        int,
        RLibError,
    > {
        match text_end(data, pos) {
            Err(e) => Err(e),
            Ok(mark1) => match numbers_end_bytes(data, mark1, parent_bytes) {
                Err(e) => Err(e),
                Ok(mark2) => match text_end(data, mark2) {
                    Err(e) => Err(e),
                    Ok(mark3) => match text_end(data, mark3) {
                        Err(e) => Err(e),
                        Ok(mark4) => match Transform::spec_end(data, mark4) {
                            Err(e) => Err(e),
                            Ok(mark5) => match Properties::spec_end(data, mark5) {
                                Err(e) => Err(e),
                                Ok(mark6) => text_end(data, mark6),
                            },
                        },
                    },
                },
            },
        }
    }

    /// Where reading a building of version 8 ends.
    pub open spec fn spec_end_v8(data: Seq<u8>, pos: int) -> core::result::Result<int, RLibError> {
        Building::spec_end_shared(data, pos, 2)
    }

    /// Where reading a building of version 11 ends.
    pub open spec fn spec_end_v11(data: Seq<u8>, pos: int) -> core::result::Result<int, RLibError> {
        match Building::spec_end_shared(data, pos, 4) {
            Err(e) => Err(e),
            Ok(p) => numbers_end_bytes(data, p, 8),
        }
    }

    /// Reads the building as version 8 has it. The id of the parent fits 16 bits. On
    /// failure `self` stays as it was.
    #[verifier::rlimit(40)]
    pub fn read_v8(&mut self, data: &[u8], index: &mut usize) -> (r: Result<()>)
        ensures
            match Building::spec_end_v8(data@, *old(index) as int) {
                Ok(end) => r is Ok && *final(index) == end && *old(index) <= end <= data@.len()
                    && final(self).serialise_version == old(self).serialise_version
                        && final(self).uid == old(self).uid
                        && i16::MIN <= final(self).parent_id <= i16::MAX
                        && final(self).spec_parts_fault() is None
                        && final(self).spec_body_v8() == data@.subrange(
                    *old(index) as int,
                    end,
                ),
                Err(e) => r == Err::<(), RLibError>(e)
                    && *final(index) == *old(index)
                    && *final(self) == *old(self),
            },
    {
        let mut at: usize = *index;
        let ghost mark0 = at as int;
        let building_id = take_text(data, &mut at)?;
        let ghost mark1 = at as int;
        let parent_id = take_i16(data, &mut at)?;
        let ghost mark2 = at as int;
        let building_key = take_text(data, &mut at)?;
        let ghost mark3 = at as int;
        let position_type = take_text(data, &mut at)?;
        let ghost mark4 = at as int;
        let transform = Transform::decode(data, &mut at)?;
        let ghost mark5 = at as int;
        let properties = Properties::decode(data, &mut at)?;
        let ghost mark6 = at as int;
        let height_mode = take_text(data, &mut at)?;
        let ghost mark7 = at as int;
        self.building_id = building_id;
        self.parent_id = parent_id as i32;
        self.building_key = building_key;
        self.position_type = position_type;
        self.transform = transform;
        self.properties = properties;
        self.height_mode = height_mode;
        proof {
            lemma_short_parent(parent_id);
            lemma_subrange_join(data@, mark0, mark1, mark2);
            lemma_subrange_join(data@, mark0, mark2, mark3);
            lemma_subrange_join(data@, mark0, mark3, mark4);
            lemma_subrange_join(data@, mark0, mark4, mark5);
            lemma_subrange_join(data@, mark0, mark5, mark6);
            lemma_subrange_join(data@, mark0, mark6, mark7);
        }
        *index = at;
        Ok(())
    }

    /// Appends the building as version 8 has it. On failure nothing is appended.
    #[verifier::rlimit(40)]
    pub fn write_v8(&self, buffer: &mut Vec<u8>) -> (r: Result<()>)
        ensures
            match self.spec_parts_fault() {
                None => r is Ok && final(buffer)@ == old(buffer)@ + self.spec_body_v8(),
                Some(e) => r == Err::<(), RLibError>(e) && final(buffer)@ == old(buffer)@,
            },
    {
        let mut out: Vec<u8> = Vec::new();
        write_sized_string_u8(&mut out, self.building_id.as_str())?;
        write_u16(&mut out, (crate::binary::i32_to_bits(self.parent_id) % 0x1_0000) as u16);
        write_sized_string_u8(&mut out, self.building_key.as_str())?;
        write_sized_string_u8(&mut out, self.position_type.as_str())?;
        self.transform.encode(&mut out)?;
        self.properties.encode(&mut out)?;
        write_sized_string_u8(&mut out, self.height_mode.as_str())?;
        assert(out@ =~= self.spec_body_v8());
        write_all(buffer, out.as_slice());
        Ok(())
    }

    /// Reads the building as version 11 has it. On failure `self` stays as it was.
    #[verifier::rlimit(40)]
    pub fn read_v11(&mut self, data: &[u8], index: &mut usize) -> (r: Result<()>)
        ensures
            match Building::spec_end_v11(data@, *old(index) as int) {
                Ok(end) => r is Ok && *final(index) == end && *old(index) <= end <= data@.len()
                    && final(self).serialise_version == old(self).serialise_version
                        && final(self).spec_parts_fault() is None
                        && final(self).spec_body_v11() == data@.subrange(
                    *old(index) as int,
                    end,
                ),
                Err(e) => r == Err::<(), RLibError>(e)
                    && *final(index) == *old(index)
                    && *final(self) == *old(self),
            },
    {
        let mut at: usize = *index;
        let ghost mark0 = at as int;
        let building_id = take_text(data, &mut at)?;
        let ghost mark1 = at as int;
        let parent_id = take_i32(data, &mut at)?;
        let ghost mark2 = at as int;
        let building_key = take_text(data, &mut at)?;
        let ghost mark3 = at as int;
        let position_type = take_text(data, &mut at)?;
        let ghost mark4 = at as int;
        let transform = Transform::decode(data, &mut at)?;
        let ghost mark5 = at as int;
        let properties = Properties::decode(data, &mut at)?;
        let ghost mark6 = at as int;
        let height_mode = take_text(data, &mut at)?;
        let ghost mark7 = at as int;
        let uid = take_u64(data, &mut at)?;
        let ghost mark8 = at as int;
        self.building_id = building_id;
        self.parent_id = parent_id;
        self.building_key = building_key;
        self.position_type = position_type;
        self.transform = transform;
        self.properties = properties;
        self.height_mode = height_mode;
        self.uid = uid;
        proof {
            lemma_subrange_join(data@, mark0, mark1, mark2);
            lemma_subrange_join(data@, mark0, mark2, mark3);
            lemma_subrange_join(data@, mark0, mark3, mark4);
            lemma_subrange_join(data@, mark0, mark4, mark5);
            lemma_subrange_join(data@, mark0, mark5, mark6);
            lemma_subrange_join(data@, mark0, mark6, mark7);
            lemma_subrange_join(data@, mark0, mark7, mark8);
        }
        *index = at;
        Ok(())
    }

    /// Appends the building as version 11 has it, in the order in which it is read. On
    /// failure nothing is appended.
    #[verifier::rlimit(40)]
    pub fn write_v11(&self, buffer: &mut Vec<u8>) -> (r: Result<()>)
        ensures
            match self.spec_parts_fault() {
                None => r is Ok && final(buffer)@ == old(buffer)@ + self.spec_body_v11(),
                Some(e) => r == Err::<(), RLibError>(e) && final(buffer)@ == old(buffer)@,
            },
    {
        let mut out: Vec<u8> = Vec::new();
        write_sized_string_u8(&mut out, self.building_id.as_str())?;
        write_i32(&mut out, self.parent_id);
        write_sized_string_u8(&mut out, self.building_key.as_str())?;
        write_sized_string_u8(&mut out, self.position_type.as_str())?;
        self.transform.encode(&mut out)?;
        self.properties.encode(&mut out)?;
        write_sized_string_u8(&mut out, self.height_mode.as_str())?;
        write_u64(&mut out, self.uid);
        assert(out@ =~= self.spec_body_v11());
        write_all(buffer, out.as_slice());
        Ok(())
    }
}

/// A number of 16 bits keeps its bits when it is widened and cut again.
pub proof fn lemma_short_parent(v: i16)
    ensures
        (u32_of(v as i32) % 0x1_0000) as u16 == u16_of(v),
{
    if v < 0 {
        vstd::arithmetic::div_mod::lemma_fundamental_div_mod_converse(
            v + 0x1_0000_0000,
            0x1_0000,
            0xFFFF,
            v + 0x1_0000,
        );
    }
}

impl Building {
    /// True when the two hold the same in what version 8 writes, of the id of the parent
    /// its lower 16 bits.
    pub open spec fn spec_same_v8(&self, other: &Self) -> bool {
        self.building_id@ == other.building_id@
            && u32_of(self.parent_id) % 0x1_0000 == u32_of(other.parent_id) % 0x1_0000
            && self.building_key@ == other.building_key@
            && self.position_type@ == other.position_type@
            && self.transform.spec_same(&other.transform)
            && self.properties.spec_same(&other.properties)
            && self.height_mode@ == other.height_mode@
    }

    /// What version 8 writes of a building, followed by anything, tells what was written.
    pub proof fn lemma_same_v8(a: Self, b: Self, x: Seq<u8>, y: Seq<u8>)
        requires
            a.spec_parts_fault() is None,
            b.spec_parts_fault() is None,
            a.spec_body_v8() + x == b.spec_body_v8() + y,
        ensures
            a.spec_same_v8(&b),
            a.spec_body_v8() == b.spec_body_v8(),
            x == y,
    {
        let ta6 = sized_string_u8_bytes(a.height_mode@) + x;
        let tb6 = sized_string_u8_bytes(b.height_mode@) + y;
        let ta5 = a.properties.spec_bytes() + ta6;
        let tb5 = b.properties.spec_bytes() + tb6;
        let ta4 = a.transform.spec_bytes() + ta5;
        let tb4 = b.transform.spec_bytes() + tb5;
        let ta3 = sized_string_u8_bytes(a.position_type@) + ta4;
        let tb3 = sized_string_u8_bytes(b.position_type@) + tb4;
        let ta2 = sized_string_u8_bytes(a.building_key@) + ta3;
        let tb2 = sized_string_u8_bytes(b.building_key@) + tb3;
        let ta1 = u16_bytes((u32_of(a.parent_id) % 0x1_0000) as u16) + ta2;
        let tb1 = u16_bytes((u32_of(b.parent_id) % 0x1_0000) as u16) + tb2;
        let ha2 = sized_string_u8_bytes(a.building_id@)
            + u16_bytes((u32_of(a.parent_id) % 0x1_0000) as u16);
        let hb2 = sized_string_u8_bytes(b.building_id@)
            + u16_bytes((u32_of(b.parent_id) % 0x1_0000) as u16);
        let ha3 = ha2 + sized_string_u8_bytes(a.building_key@);
        let hb3 = hb2 + sized_string_u8_bytes(b.building_key@);
        let ha4 = ha3 + sized_string_u8_bytes(a.position_type@);
        let hb4 = hb3 + sized_string_u8_bytes(b.position_type@);
        let ha5 = ha4 + a.transform.spec_bytes();
        let hb5 = hb4 + b.transform.spec_bytes();
        let ha6 = ha5 + a.properties.spec_bytes();
        let hb6 = hb5 + b.properties.spec_bytes();
        lemma_join(ha6, sized_string_u8_bytes(a.height_mode@), x);
        lemma_join(hb6, sized_string_u8_bytes(b.height_mode@), y);
        lemma_join(ha5, a.properties.spec_bytes(), ta6);
        lemma_join(hb5, b.properties.spec_bytes(), tb6);
        lemma_join(ha4, a.transform.spec_bytes(), ta5);
        lemma_join(hb4, b.transform.spec_bytes(), tb5);
        lemma_join(ha3, sized_string_u8_bytes(a.position_type@), ta4);
        lemma_join(hb3, sized_string_u8_bytes(b.position_type@), tb4);
        lemma_join(ha2, sized_string_u8_bytes(a.building_key@), ta3);
        lemma_join(hb2, sized_string_u8_bytes(b.building_key@), tb3);
        lemma_join(
            sized_string_u8_bytes(a.building_id@),
            u16_bytes((u32_of(a.parent_id) % 0x1_0000) as u16),
            ta2,
        );
        lemma_join(
            sized_string_u8_bytes(b.building_id@),
            u16_bytes((u32_of(b.parent_id) % 0x1_0000) as u16),
            tb2,
        );
        lemma_text_prefix(a.building_id@, b.building_id@, ta1, tb1);
        lemma_u16_prefix(
            (u32_of(a.parent_id) % 0x1_0000) as u16,
            (u32_of(b.parent_id) % 0x1_0000) as u16,
            ta2,
            tb2,
        );
        lemma_text_prefix(a.building_key@, b.building_key@, ta3, tb3);
        lemma_text_prefix(a.position_type@, b.position_type@, ta4, tb4);
        Transform::lemma_same(a.transform, b.transform, ta5, tb5);
        Properties::lemma_same(a.properties, b.properties, ta6, tb6);
        lemma_text_prefix(a.height_mode@, b.height_mode@, x, y);
    }

    /// True when the two hold the same in what version 11 writes.
    pub open spec fn spec_same_v11(&self, other: &Self) -> bool {
        self.building_id@ == other.building_id@
            && self.parent_id == other.parent_id
            && self.building_key@ == other.building_key@
            && self.position_type@ == other.position_type@
            && self.transform.spec_same(&other.transform)
            && self.properties.spec_same(&other.properties)
            && self.height_mode@ == other.height_mode@
            && self.uid == other.uid
    }

    /// What version 11 writes of a building, followed by anything, tells what was written.
    pub proof fn lemma_same_v11(a: Self, b: Self, x: Seq<u8>, y: Seq<u8>)
        requires
            a.spec_parts_fault() is None,
            b.spec_parts_fault() is None,
            a.spec_body_v11() + x == b.spec_body_v11() + y,
        ensures
            a.spec_same_v11(&b),
            a.spec_body_v11() == b.spec_body_v11(),
            x == y,
    {
        let ta7 = u64_bytes(a.uid) + x;
        let tb7 = u64_bytes(b.uid) + y;
        let ta6 = sized_string_u8_bytes(a.height_mode@) + ta7;
        let tb6 = sized_string_u8_bytes(b.height_mode@) + tb7;
        let ta5 = a.properties.spec_bytes() + ta6;
        let tb5 = b.properties.spec_bytes() + tb6;
        let ta4 = a.transform.spec_bytes() + ta5;
        let tb4 = b.transform.spec_bytes() + tb5;
        let ta3 = sized_string_u8_bytes(a.position_type@) + ta4;
        let tb3 = sized_string_u8_bytes(b.position_type@) + tb4;
        let ta2 = sized_string_u8_bytes(a.building_key@) + ta3;
        let tb2 = sized_string_u8_bytes(b.building_key@) + tb3;
        let ta1 = u32_bytes(u32_of(a.parent_id)) + ta2;
        let tb1 = u32_bytes(u32_of(b.parent_id)) + tb2;
        let ha2 = sized_string_u8_bytes(a.building_id@) + u32_bytes(u32_of(a.parent_id));
        let hb2 = sized_string_u8_bytes(b.building_id@) + u32_bytes(u32_of(b.parent_id));
        let ha3 = ha2 + sized_string_u8_bytes(a.building_key@);
        let hb3 = hb2 + sized_string_u8_bytes(b.building_key@);
        let ha4 = ha3 + sized_string_u8_bytes(a.position_type@);
        let hb4 = hb3 + sized_string_u8_bytes(b.position_type@);
        let ha5 = ha4 + a.transform.spec_bytes();
        let hb5 = hb4 + b.transform.spec_bytes();
        let ha6 = ha5 + a.properties.spec_bytes();
        let hb6 = hb5 + b.properties.spec_bytes();
        let ha7 = ha6 + sized_string_u8_bytes(a.height_mode@);
        let hb7 = hb6 + sized_string_u8_bytes(b.height_mode@);
        lemma_join(ha7, u64_bytes(a.uid), x);
        lemma_join(hb7, u64_bytes(b.uid), y);
        lemma_join(ha6, sized_string_u8_bytes(a.height_mode@), ta7);
        lemma_join(hb6, sized_string_u8_bytes(b.height_mode@), tb7);
        lemma_join(ha5, a.properties.spec_bytes(), ta6);
        lemma_join(hb5, b.properties.spec_bytes(), tb6);
        lemma_join(ha4, a.transform.spec_bytes(), ta5);
        lemma_join(hb4, b.transform.spec_bytes(), tb5);
        lemma_join(ha3, sized_string_u8_bytes(a.position_type@), ta4);
        lemma_join(hb3, sized_string_u8_bytes(b.position_type@), tb4);
        lemma_join(ha2, sized_string_u8_bytes(a.building_key@), ta3);
        lemma_join(hb2, sized_string_u8_bytes(b.building_key@), tb3);
        lemma_join(sized_string_u8_bytes(a.building_id@), u32_bytes(u32_of(a.parent_id)), ta2);
        lemma_join(sized_string_u8_bytes(b.building_id@), u32_bytes(u32_of(b.parent_id)), tb2);
        lemma_text_prefix(a.building_id@, b.building_id@, ta1, tb1);
        lemma_i32_prefix(a.parent_id, b.parent_id, ta2, tb2);
        lemma_text_prefix(a.building_key@, b.building_key@, ta3, tb3);
        lemma_text_prefix(a.position_type@, b.position_type@, ta4, tb4);
        Transform::lemma_same(a.transform, b.transform, ta5, tb5);
        Properties::lemma_same(a.properties, b.properties, ta6, tb6);
        lemma_text_prefix(a.height_mode@, b.height_mode@, ta7, tb7);
        lemma_u64_prefix(a.uid, b.uid, x, y);
    }

    /// What version 8 writes of a building can be read: where those bytes stand, reading ends
    /// right behind them.
    pub proof fn lemma_read_back_v8(a: Self, data: Seq<u8>, pos: int, end: int)
        requires
            a.spec_parts_fault() is None,
            stands(data, pos, end, a.spec_body_v8()),
        ensures
            Self::spec_end_v8(data, pos) == Ok::<int, RLibError>(end),
    {
        let h2 = sized_string_u8_bytes(a.building_id@)
            + u16_bytes((u32_of(a.parent_id) % 0x1_0000) as u16);
        let h3 = h2 + sized_string_u8_bytes(a.building_key@);
        let h4 = h3 + sized_string_u8_bytes(a.position_type@);
        let h5 = h4 + a.transform.spec_bytes();
        let h6 = h5 + a.properties.spec_bytes();
        let m1 = after(pos, sized_string_u8_bytes(a.building_id@));
        let m2 = after(pos, h2);
        let m3 = after(pos, h3);
        let m4 = after(pos, h4);
        let m5 = after(pos, h5);
        let m6 = after(pos, h6);
        lemma_split(data, pos, end, h6, sized_string_u8_bytes(a.height_mode@));
        lemma_split(data, pos, m6, h5, a.properties.spec_bytes());
        lemma_split(data, pos, m5, h4, a.transform.spec_bytes());
        lemma_split(data, pos, m4, h3, sized_string_u8_bytes(a.position_type@));
        lemma_split(data, pos, m3, h2, sized_string_u8_bytes(a.building_key@));
        lemma_split(
            data,
            pos,
            m2,
            sized_string_u8_bytes(a.building_id@),
            u16_bytes((u32_of(a.parent_id) % 0x1_0000) as u16),
        );
        lemma_text_read_back(a.building_id@, data, pos, m1);
        lemma_u16_read_back((u32_of(a.parent_id) % 0x1_0000) as u16, data, m1, m2);
        lemma_text_read_back(a.building_key@, data, m2, m3);
        lemma_text_read_back(a.position_type@, data, m3, m4);
        Transform::lemma_read_back(a.transform, data, m4, m5);
        Properties::lemma_read_back(a.properties, data, m5, m6);
        lemma_text_read_back(a.height_mode@, data, m6, end);
    }

    /// What version 11 writes of a building can be read: where those bytes stand, reading ends
    /// right behind them.
    pub proof fn lemma_read_back_v11(a: Self, data: Seq<u8>, pos: int, end: int)
        requires
            a.spec_parts_fault() is None,
            stands(data, pos, end, a.spec_body_v11()),
        ensures
            Self::spec_end_v11(data, pos) == Ok::<int, RLibError>(end),
    {
        let h2 = sized_string_u8_bytes(a.building_id@) + u32_bytes(u32_of(a.parent_id));
        let h3 = h2 + sized_string_u8_bytes(a.building_key@);
        let h4 = h3 + sized_string_u8_bytes(a.position_type@);
        let h5 = h4 + a.transform.spec_bytes();
        let h6 = h5 + a.properties.spec_bytes();
        let h7 = h6 + sized_string_u8_bytes(a.height_mode@);
        let m1 = after(pos, sized_string_u8_bytes(a.building_id@));
        let m2 = after(pos, h2);
        let m3 = after(pos, h3);
        let m4 = after(pos, h4);
        let m5 = after(pos, h5);
        let m6 = after(pos, h6);
        let m7 = after(pos, h7);
        lemma_split(data, pos, end, h7, u64_bytes(a.uid));
        lemma_split(data, pos, m7, h6, sized_string_u8_bytes(a.height_mode@));
        lemma_split(data, pos, m6, h5, a.properties.spec_bytes());
        lemma_split(data, pos, m5, h4, a.transform.spec_bytes());
        lemma_split(data, pos, m4, h3, sized_string_u8_bytes(a.position_type@));
        lemma_split(data, pos, m3, h2, sized_string_u8_bytes(a.building_key@));
        lemma_split(
            data,
            pos,
            m2,
            sized_string_u8_bytes(a.building_id@),
            u32_bytes(u32_of(a.parent_id)),
        );
        lemma_text_read_back(a.building_id@, data, pos, m1);
        lemma_u32_read_back(u32_of(a.parent_id), data, m1, m2);
        lemma_text_read_back(a.building_key@, data, m2, m3);
        lemma_text_read_back(a.position_type@, data, m3, m4);
        Transform::lemma_read_back(a.transform, data, m4, m5);
        Properties::lemma_read_back(a.properties, data, m5, m6);
        lemma_text_read_back(a.height_mode@, data, m6, m7);
        lemma_u64_read_back(a.uid, data, m7, end);
    }
}

impl Block for Building {
    /// The bytes of the building: the version, then what the version lays out.
    open spec fn spec_bytes(&self) -> Seq<u8> {
        u16_bytes(self.serialise_version) + (if self.serialise_version == 8 {
            self.spec_body_v8()
        } else {
            self.spec_body_v11()
        })
    }

    /// What stands against writing the building.
    open spec fn spec_fault(&self) -> Option<RLibError> {
        if self.serialise_version == 8 || self.serialise_version == 11 {
            self.spec_parts_fault()
        } else {
            Some(
                RLibError::EncodingUnsupportedVersion(
                    Entity::Building,
                    self.serialise_version as u32,
                ),
            )
        }
    }

    /// Where reading a building at `pos` ends: the version must be one that can be read.
    open spec fn spec_end(data: Seq<u8>, pos: int) -> core::result::Result<int, RLibError> {
        match parse_u16(data, pos) {
            Err(e) => Err(e),
            Ok((version, next)) => if version == 8 {
                Building::spec_end_v8(data, next)
            } else if version == 11 {
                Building::spec_end_v11(data, next)
            } else {
                Err(RLibError::DecodingUnsupportedVersion(Entity::Building, version as u32))
            },
        }
    }

    /// True when the two are of one version and hold the same in what that version
    /// writes.
    open spec fn spec_same(&self, other: &Self) -> bool {
        self.serialise_version == other.serialise_version
            && (self.serialise_version == 8 ==> self.spec_same_v8(other))
            && (self.serialise_version == 11 ==> self.spec_same_v11(other))
    }

    proof fn lemma_same(a: Self, b: Self, x: Seq<u8>, y: Seq<u8>) {
        let body_a = if a.serialise_version == 8 { a.spec_body_v8() } else { a.spec_body_v11() };
        let body_b = if b.serialise_version == 8 { b.spec_body_v8() } else { b.spec_body_v11() };
        lemma_join(u16_bytes(a.serialise_version), body_a, x);
        lemma_join(u16_bytes(b.serialise_version), body_b, y);
        lemma_u16_prefix(a.serialise_version, b.serialise_version, body_a + x, body_b + y);
        if a.serialise_version == 8 {
            Self::lemma_same_v8(a, b, x, y);
        } else {
            Self::lemma_same_v11(a, b, x, y);
        }
    }

    proof fn lemma_read_back(a: Self, data: Seq<u8>, pos: int, end: int) {
        let body = if a.serialise_version == 8 {
            a.spec_body_v8()
        } else {
            a.spec_body_v11()
        };
        let mid = after(pos, u16_bytes(a.serialise_version));
        lemma_split(data, pos, end, u16_bytes(a.serialise_version), body);
        lemma_u16_read_back(a.serialise_version, data, pos, mid);
        if a.serialise_version == 8 {
            Self::lemma_read_back_v8(a, data, mid, end);
        } else {
            Self::lemma_read_back_v11(a, data, mid, end);
        }
    }

    fn decode(data: &[u8], index: &mut usize) -> (r: Result<Self>) {
        let mut at: usize = *index;
        let version = take_u16(data, &mut at)?;
        let mut decoded = Building::new(version);
        let ghost body = at as int;
        match version {
            8 => decoded.read_v8(data, &mut at)?,
            11 => decoded.read_v11(data, &mut at)?,
            _ => {
                return Err(RLibError::DecodingUnsupportedVersion(Entity::Building, version as u32));
            },
        }
        proof {
            lemma_subrange_join(data@, *index as int, body, at as int);
        }
        *index = at;
        Ok(decoded)
    }

    fn encode(&self, buffer: &mut Vec<u8>) -> (r: Result<()>) {
        let mut out: Vec<u8> = Vec::new();
        write_u16(&mut out, self.serialise_version);
        match self.serialise_version {
            8 => self.write_v8(&mut out)?,
            11 => self.write_v11(&mut out)?,
            _ => {
                return Err(
                    RLibError::EncodingUnsupportedVersion(
                        Entity::Building,
                        self.serialise_version as u32,
                    ),
                );
            },
        }
        assert(out@ =~= self.spec_bytes());
        write_all(buffer, out.as_slice());
        Ok(())
    }
}

} // verus!
