//! Zones.

use vstd::prelude::*;

use crate::binary::{
    lemma_subrange_join, parse_u16, sized_string_u8_bytes, u16_bytes, write_all,
    write_sized_string_u8, write_u16,
};
use crate::error::{Entity, RLibError, Result};
use crate::fastbin::read_back::{
    after, lemma_split, lemma_text_read_back, lemma_u16_read_back, stands,
};
use crate::fastbin::prefix::{lemma_join, lemma_text_prefix, lemma_u16_prefix};
use crate::fastbin::common::{or_fault, take_text, take_u16, text_end, text_fault, Block, Transform};

verus! {

/// A zone of a battlefield.
#[derive(Debug)]
pub struct Zone {
    pub serialise_version: u16,
    pub zone_name: String,
    pub transform: Transform,
}

impl Zone {
    /// True when nothing is set: every number is zero, every switch is off, every text
    /// and every list is empty, and every part is of version 0 with nothing set.
    pub open spec fn is_blank(&self) -> bool {
        self.zone_name@.len() == 0
            && self.transform == (Transform {
                m00: 0, m01: 0, m02: 0, m10: 0, m11: 0, m12: 0,
                m20: 0, m21: 0, m22: 0, m30: 0, m31: 0, m32: 0,
            })
    }

    /// The zone of the given version with nothing set.
    pub fn new(serialise_version: u16) -> (r: Zone)
        ensures
            r.serialise_version == serialise_version,
            r.is_blank(),
    {
        Zone {
            serialise_version,
            zone_name: String::new(),
            transform: Transform { m00: 0, m01: 0, m02: 0, m10: 0, m11: 0, m12: 0, m20: 0, m21: 0, m22: 0, m30: 0, m31: 0, m32: 0 },
        }
    }

    /// The bytes of the zone in version 1, behind the version.
    pub open spec fn spec_body_v1(&self) -> Seq<u8> {
        sized_string_u8_bytes(self.zone_name@)
            + self.transform.spec_bytes()
    }

    /// What stands against writing the zone in version 1, where anything does.
    pub open spec fn spec_fault_v1(&self) -> Option<RLibError> {
        or_fault(text_fault(self.zone_name@), self.transform.spec_fault())
    }

    /// Where reading the zone in version 1 ends.
    pub open spec fn spec_end_v1(data: Seq<u8>, pos: int) -> core::result::Result<int, RLibError> {
        match text_end(data, pos) {
            Err(e) => Err(e),
            Ok(mark1) => Transform::spec_end(data, mark1),
        }
    }

    /// Reads the zone as version 1 has it. On failure `self` stays as it was.
    pub fn read_v1(&mut self, data: &[u8], index: &mut usize) -> (r: Result<()>)
        ensures
            match Zone::spec_end_v1(data@, *old(index) as int) {
                Ok(end) => r is Ok && *final(index) == end && *old(index) <= end <= data@.len()
                    && final(self).serialise_version == old(self).serialise_version
                    && final(self).spec_fault_v1() is None
                    && final(self).spec_body_v1() == data@.subrange(*old(index) as int, end),
                Err(e) => r == Err::<(), RLibError>(e) && *final(index) == *old(index)
                    && *final(self) == *old(self),
            },
    {
        let mut at: usize = *index;
        let ghost mark0 = at as int;
        let zone_name = take_text(data, &mut at)?;
        let ghost mark1 = at as int;
        let transform = Transform::decode(data, &mut at)?;
        let ghost mark2 = at as int;
        self.zone_name = zone_name;
        self.transform = transform;
        proof {
            lemma_subrange_join(data@, mark0, mark1, mark2);
        }
        *index = at;
        Ok(())
    }

    /// Appends the zone as version 1 has it. On failure nothing is appended.
    pub fn write_v1(&self, buffer: &mut Vec<u8>) -> (r: Result<()>)
        ensures
            match self.spec_fault_v1() {
                None => r is Ok && final(buffer)@ == old(buffer)@ + self.spec_body_v1(),
                Some(e) => r == Err::<(), RLibError>(e) && final(buffer)@ == old(buffer)@,
            },
    {
        let mut out: Vec<u8> = Vec::new();
        write_sized_string_u8(&mut out, self.zone_name.as_str())?;
        self.transform.encode(&mut out)?;
        assert(out@ =~= self.spec_body_v1());
        write_all(buffer, out.as_slice());
        Ok(())
    }

    /// True when the two hold the same in what version 1 writes.
    pub open spec fn spec_same_v1(&self, other: &Self) -> bool {
        self.zone_name@ == other.zone_name@
            && self.transform.spec_same(&other.transform)
    }

    /// What version 1 writes of a zone, followed by anything, tells what was written.
    pub proof fn lemma_same_v1(a: Self, b: Self, x: Seq<u8>, y: Seq<u8>)
        requires
            a.spec_fault_v1() is None,
            b.spec_fault_v1() is None,
            a.spec_body_v1() + x == b.spec_body_v1() + y,
        ensures
            a.spec_same_v1(&b),
            a.spec_body_v1() == b.spec_body_v1(),
            x == y,
    {
        let ta1 = a.transform.spec_bytes() + x;
        let tb1 = b.transform.spec_bytes() + y;
        lemma_join(sized_string_u8_bytes(a.zone_name@), a.transform.spec_bytes(), x);
        lemma_join(sized_string_u8_bytes(b.zone_name@), b.transform.spec_bytes(), y);
        lemma_text_prefix(a.zone_name@, b.zone_name@, ta1, tb1);
        Transform::lemma_same(a.transform, b.transform, x, y);
    }

    /// What version 1 writes of a zone can be read: where those bytes stand, reading ends
    /// right behind them.
    pub proof fn lemma_read_back_v1(a: Self, data: Seq<u8>, pos: int, end: int)
        requires
            a.spec_fault_v1() is None,
            stands(data, pos, end, a.spec_body_v1()),
        ensures
            Self::spec_end_v1(data, pos) == Ok::<int, RLibError>(end),
    {
        let m1 = after(pos, sized_string_u8_bytes(a.zone_name@));
        lemma_split(data, pos, end, sized_string_u8_bytes(a.zone_name@), a.transform.spec_bytes());
        lemma_text_read_back(a.zone_name@, data, pos, m1);
        Transform::lemma_read_back(a.transform, data, m1, end);
    }
}

impl Block for Zone {
    /// The bytes of the zone: the version, then what the version lays out.
    open spec fn spec_bytes(&self) -> Seq<u8> {
        u16_bytes(self.serialise_version) + (if self.serialise_version == 1 {
            self.spec_body_v1()
        } else {
            Seq::empty()
        })
    }

    /// What stands against writing the zone: a version that cannot be written, or a part
    /// that cannot.
    open spec fn spec_fault(&self) -> Option<RLibError> {
        if self.serialise_version == 1 {
            self.spec_fault_v1()
        } else {
            Some(RLibError::EncodingUnsupportedVersion(Entity::Zone, self.serialise_version as u32))
        }
    }

    /// Where reading the zone at `pos` ends: the version must be one that can be read.
    open spec fn spec_end(data: Seq<u8>, pos: int) -> core::result::Result<int, RLibError> {
        match parse_u16(data, pos) {
            Err(e) => Err(e),
            Ok((version, next)) => if version == 1 {
                Zone::spec_end_v1(data, next)
            } else {
                Err(RLibError::DecodingUnsupportedVersion(Entity::Zone, version as u32))
            },
        }
    }

    /// True when the two are of one version and hold the same in what that version
    /// writes.
    open spec fn spec_same(&self, other: &Self) -> bool {
        self.serialise_version == other.serialise_version
            && (self.serialise_version == 1 ==> self.spec_same_v1(other))
    }

    proof fn lemma_same(a: Self, b: Self, x: Seq<u8>, y: Seq<u8>) {
        let body_a = a.spec_body_v1();
        let body_b = b.spec_body_v1();
        lemma_join(u16_bytes(a.serialise_version), body_a, x);
        lemma_join(u16_bytes(b.serialise_version), body_b, y);
        lemma_u16_prefix(a.serialise_version, b.serialise_version, body_a + x, body_b + y);
        Self::lemma_same_v1(a, b, x, y);
    }

    proof fn lemma_read_back(a: Self, data: Seq<u8>, pos: int, end: int) {
        let body = a.spec_body_v1();
        let mid = after(pos, u16_bytes(a.serialise_version));
        lemma_split(data, pos, end, u16_bytes(a.serialise_version), body);
        lemma_u16_read_back(a.serialise_version, data, pos, mid);
        Self::lemma_read_back_v1(a, data, mid, end);
    }

    fn decode(data: &[u8], index: &mut usize) -> (r: Result<Self>) {
        let mut at: usize = *index;
        let version = take_u16(data, &mut at)?;
        let mut decoded = Zone::new(version);
        let ghost body = at as int;
        match version {
            1 => decoded.read_v1(data, &mut at)?,
            _ => {
                return Err(RLibError::DecodingUnsupportedVersion(Entity::Zone, version as u32));
            },
        }
        proof {
            lemma_subrange_join(data@, *index as int, body, at as int);
        }
        *index = at;
        Ok(decoded)
    }

    fn encode(&self, buffer: &mut Vec<u8>) -> (r: Result<()>) {
        let mut out: Vec<u8> = Vec::new();
        write_u16(&mut out, self.serialise_version);
        match self.serialise_version {
            1 => self.write_v1(&mut out)?,
            _ => {
                return Err(
                    RLibError::EncodingUnsupportedVersion(
                        Entity::Zone,
                        self.serialise_version as u32,
                    ),
                );
            },
        }
        assert(out@ =~= self.spec_bytes());
        write_all(buffer, out.as_slice());
        Ok(())
    }
}

/// The zones of a battlefield.
#[derive(Debug)]
pub struct ZonesTemplateList {
    pub serialise_version: u16,
    pub zones: Vec<Zone>,
}

impl ZonesTemplateList {
    /// True when nothing is set: every number is zero, every switch is off, every text
    /// and every list is empty, and every part is of version 0 with nothing set.
    pub open spec fn is_blank(&self) -> bool {
        self.zones@.len() == 0
    }

    /// The list of zones of the given version with nothing set.
    pub fn new(serialise_version: u16) -> (r: ZonesTemplateList)
        ensures
            r.serialise_version == serialise_version,
            r.is_blank(),
    {
        ZonesTemplateList {
            serialise_version,
            zones: Vec::new(),
        }
    }

    /// The bytes of the list of zones in version 2, behind the version.
    pub open spec fn spec_body_v2(&self) -> Seq<u8> {
        self.zones.spec_bytes()
    }

    /// What stands against writing the list of zones in version 2, where anything does.
    pub open spec fn spec_fault_v2(&self) -> Option<RLibError> {
        self.zones.spec_fault()
    }

    /// Where reading the list of zones in version 2 ends.
    pub open spec fn spec_end_v2(data: Seq<u8>, pos: int) -> core::result::Result<int, RLibError> {
        <Vec<Zone>>::spec_end(data, pos)
    }

    /// Reads the list of zones as version 2 has it. On failure `self` stays as it was.
    pub fn read_v2(&mut self, data: &[u8], index: &mut usize) -> (r: Result<()>)
        ensures
            match ZonesTemplateList::spec_end_v2(data@, *old(index) as int) {
                Ok(end) => r is Ok && *final(index) == end && *old(index) <= end <= data@.len()
                    && final(self).serialise_version == old(self).serialise_version
                    && final(self).spec_fault_v2() is None
                    && final(self).spec_body_v2() == data@.subrange(*old(index) as int, end),
                Err(e) => r == Err::<(), RLibError>(e) && *final(index) == *old(index)
                    && *final(self) == *old(self),
            },
    {
        let mut at: usize = *index;
        let ghost mark0 = at as int;
        let zones = <Vec<Zone>>::decode(data, &mut at)?;
        let ghost mark1 = at as int;
        self.zones = zones;
        *index = at;
        Ok(())
    }

    /// Appends the list of zones as version 2 has it. On failure nothing is appended.
    pub fn write_v2(&self, buffer: &mut Vec<u8>) -> (r: Result<()>)
        ensures
            match self.spec_fault_v2() {
                None => r is Ok && final(buffer)@ == old(buffer)@ + self.spec_body_v2(),
                Some(e) => r == Err::<(), RLibError>(e) && final(buffer)@ == old(buffer)@,
            },
    {
        let mut out: Vec<u8> = Vec::new();
        self.zones.encode(&mut out)?;
        assert(out@ =~= self.spec_body_v2());
        write_all(buffer, out.as_slice());
        Ok(())
    }

    /// True when the two hold the same in what version 2 writes.
    pub open spec fn spec_same_v2(&self, other: &Self) -> bool {
        self.zones.spec_same(&other.zones)
    }

    /// What version 2 writes of a list of zones, followed by anything, tells what was written.
    pub proof fn lemma_same_v2(a: Self, b: Self, x: Seq<u8>, y: Seq<u8>)
        requires
            a.spec_fault_v2() is None,
            b.spec_fault_v2() is None,
            a.spec_body_v2() + x == b.spec_body_v2() + y,
        ensures
            a.spec_same_v2(&b),
            a.spec_body_v2() == b.spec_body_v2(),
            x == y,
    {
        Vec::<Zone>::lemma_same(a.zones, b.zones, x, y);
    }

    /// What version 2 writes of a list of zones can be read: where those bytes stand, reading ends
    /// right behind them.
    pub proof fn lemma_read_back_v2(a: Self, data: Seq<u8>, pos: int, end: int)
        requires
            a.spec_fault_v2() is None,
            stands(data, pos, end, a.spec_body_v2()),
        ensures
            Self::spec_end_v2(data, pos) == Ok::<int, RLibError>(end),
    {
        Vec::<Zone>::lemma_read_back(a.zones, data, pos, end);
    }
}

impl Block for ZonesTemplateList {
    /// The bytes of the list of zones: the version, then what the version lays out.
    open spec fn spec_bytes(&self) -> Seq<u8> {
        u16_bytes(self.serialise_version) + (if self.serialise_version == 2 {
            self.spec_body_v2()
        } else {
            Seq::empty()
        })
    }

    /// What stands against writing the list of zones: a version that cannot be written, or a part
    /// that cannot.
    open spec fn spec_fault(&self) -> Option<RLibError> {
        if self.serialise_version == 2 {
            self.spec_fault_v2()
        } else {
            Some(
                RLibError::EncodingUnsupportedVersion(
                    Entity::ZonesTemplateList,
                    self.serialise_version as u32,
                ),
            )
        }
    }

    /// Where reading the list of zones at `pos` ends: the version must be one that can be read.
    open spec fn spec_end(data: Seq<u8>, pos: int) -> core::result::Result<int, RLibError> {
        match parse_u16(data, pos) {
            Err(e) => Err(e),
            Ok((version, next)) => if version == 2 {
                ZonesTemplateList::spec_end_v2(data, next)
            } else {
                Err(
                    RLibError::DecodingUnsupportedVersion(
                        Entity::ZonesTemplateList,
                        version as u32,
                    ),
                )
            },
        }
    }

    /// True when the two are of one version and hold the same in what that version
    /// writes.
    open spec fn spec_same(&self, other: &Self) -> bool {
        self.serialise_version == other.serialise_version
            && (self.serialise_version == 2 ==> self.spec_same_v2(other))
    }

    proof fn lemma_same(a: Self, b: Self, x: Seq<u8>, y: Seq<u8>) {
        let body_a = a.spec_body_v2();
        let body_b = b.spec_body_v2();
        lemma_join(u16_bytes(a.serialise_version), body_a, x);
        lemma_join(u16_bytes(b.serialise_version), body_b, y);
        lemma_u16_prefix(a.serialise_version, b.serialise_version, body_a + x, body_b + y);
        Self::lemma_same_v2(a, b, x, y);
    }

    proof fn lemma_read_back(a: Self, data: Seq<u8>, pos: int, end: int) {
        let body = a.spec_body_v2();
        let mid = after(pos, u16_bytes(a.serialise_version));
        lemma_split(data, pos, end, u16_bytes(a.serialise_version), body);
        lemma_u16_read_back(a.serialise_version, data, pos, mid);
        Self::lemma_read_back_v2(a, data, mid, end);
    }

    fn decode(data: &[u8], index: &mut usize) -> (r: Result<Self>) {
        let mut at: usize = *index;
        let version = take_u16(data, &mut at)?;
        let mut decoded = ZonesTemplateList::new(version);
        let ghost body = at as int;
        match version {
            2 => decoded.read_v2(data, &mut at)?,
            _ => {
                return Err(
                    RLibError::DecodingUnsupportedVersion(
                        Entity::ZonesTemplateList,
                        version as u32,
                    ),
                );
            },
        }
        proof {
            lemma_subrange_join(data@, *index as int, body, at as int);
        }
        *index = at;
        Ok(decoded)
    }

    fn encode(&self, buffer: &mut Vec<u8>) -> (r: Result<()>) {
        let mut out: Vec<u8> = Vec::new();
        write_u16(&mut out, self.serialise_version);
        match self.serialise_version {
            2 => self.write_v2(&mut out)?,
            _ => {
                return Err(
                    RLibError::EncodingUnsupportedVersion(
                        Entity::ZonesTemplateList,
                        self.serialise_version as u32,
                    ),
                );
            },
        }
        assert(out@ =~= self.spec_bytes());
        write_all(buffer, out.as_slice());
        Ok(())
    }
}

} // verus!
