//! The playable area.

use vstd::prelude::*;

use crate::binary::{
    bool_bytes, lemma_subrange_join, parse_u16, u16_bytes, u32_bytes, write_all, write_bool,
    write_u16, write_u32,
};
use crate::error::{Entity, RLibError, Result};
use crate::fastbin::read_back::{
    after, lemma_bool_read_back, lemma_split, lemma_u16_read_back, lemma_u32_read_back, stands,
};
use crate::fastbin::prefix::{lemma_bool_prefix, lemma_join, lemma_u16_prefix, lemma_u32_prefix};
use crate::fastbin::common::{
    bool_end, numbers_end_bytes, or_fault, take_bool, take_u16, take_u32, Block,
};

verus! {

/// A rectangle on the ground, each coordinate a float held by its bits.
#[derive(Clone, Copy, Debug, PartialEq, Eq, Structural)]
pub struct Rectangle {
    pub min_x: u32,
    pub min_y: u32,
    pub max_x: u32,
    pub max_y: u32,
}

impl Block for Rectangle {
    /// The bytes of a rectangle.
    open spec fn spec_bytes(&self) -> Seq<u8> {
        u32_bytes(self.min_x)
            + u32_bytes(self.min_y)
            + u32_bytes(self.max_x)
            + u32_bytes(self.max_y)
    }

    /// What stands against writing a rectangle, where anything does.
    open spec fn spec_fault(&self) -> Option<RLibError> {
        None
    }

    /// Where reading a rectangle at `pos` ends.
    open spec fn spec_end(data: Seq<u8>, pos: int) -> core::result::Result<int, RLibError> {
        match numbers_end_bytes(data, pos, 4) {
            Err(e) => Err(e),
            Ok(mark1) => match numbers_end_bytes(data, mark1, 4) {
                Err(e) => Err(e),
                Ok(mark2) => match numbers_end_bytes(data, mark2, 4) {
                    Err(e) => Err(e),
                    Ok(mark3) => numbers_end_bytes(data, mark3, 4),
                },
            },
        }
    }

    /// True when the two hold the same.
    open spec fn spec_same(&self, other: &Self) -> bool {
        self.min_x == other.min_x
            && self.min_y == other.min_y
            && self.max_x == other.max_x
            && self.max_y == other.max_y
    }

    proof fn lemma_same(a: Self, b: Self, x: Seq<u8>, y: Seq<u8>) {
        let ta3 = u32_bytes(a.max_y) + x;
        let tb3 = u32_bytes(b.max_y) + y;
        let ta2 = u32_bytes(a.max_x) + ta3;
        let tb2 = u32_bytes(b.max_x) + tb3;
        let ta1 = u32_bytes(a.min_y) + ta2;
        let tb1 = u32_bytes(b.min_y) + tb2;
        let ha2 = u32_bytes(a.min_x) + u32_bytes(a.min_y);
        let hb2 = u32_bytes(b.min_x) + u32_bytes(b.min_y);
        let ha3 = ha2 + u32_bytes(a.max_x);
        let hb3 = hb2 + u32_bytes(b.max_x);
        lemma_join(ha3, u32_bytes(a.max_y), x);
        lemma_join(hb3, u32_bytes(b.max_y), y);
        lemma_join(ha2, u32_bytes(a.max_x), ta3);
        lemma_join(hb2, u32_bytes(b.max_x), tb3);
        lemma_join(u32_bytes(a.min_x), u32_bytes(a.min_y), ta2);
        lemma_join(u32_bytes(b.min_x), u32_bytes(b.min_y), tb2);
        lemma_u32_prefix(a.min_x, b.min_x, ta1, tb1);
        lemma_u32_prefix(a.min_y, b.min_y, ta2, tb2);
        lemma_u32_prefix(a.max_x, b.max_x, ta3, tb3);
        lemma_u32_prefix(a.max_y, b.max_y, x, y);
    }

    proof fn lemma_read_back(a: Self, data: Seq<u8>, pos: int, end: int) {
        let h2 = u32_bytes(a.min_x) + u32_bytes(a.min_y);
        let h3 = h2 + u32_bytes(a.max_x);
        let m1 = after(pos, u32_bytes(a.min_x));
        let m2 = after(pos, h2);
        let m3 = after(pos, h3);
        lemma_split(data, pos, end, h3, u32_bytes(a.max_y));
        lemma_split(data, pos, m3, h2, u32_bytes(a.max_x));
        lemma_split(data, pos, m2, u32_bytes(a.min_x), u32_bytes(a.min_y));
        lemma_u32_read_back(a.min_x, data, pos, m1);
        lemma_u32_read_back(a.min_y, data, m1, m2);
        lemma_u32_read_back(a.max_x, data, m2, m3);
        lemma_u32_read_back(a.max_y, data, m3, end);
    }

    fn decode(data: &[u8], index: &mut usize) -> (r: Result<Self>) {
        let mut at: usize = *index;
        let ghost mark0 = at as int;
        let min_x = take_u32(data, &mut at)?;
        let ghost mark1 = at as int;
        let min_y = take_u32(data, &mut at)?;
        let ghost mark2 = at as int;
        let max_x = take_u32(data, &mut at)?;
        let ghost mark3 = at as int;
        let max_y = take_u32(data, &mut at)?;
        let ghost mark4 = at as int;
        let decoded = Rectangle { min_x, min_y, max_x, max_y };
        proof {
            lemma_subrange_join(data@, mark0, mark1, mark2);
            lemma_subrange_join(data@, mark0, mark2, mark3);
            lemma_subrange_join(data@, mark0, mark3, mark4);
        }
        *index = at;
        Ok(decoded)
    }

    fn encode(&self, buffer: &mut Vec<u8>) -> (r: Result<()>) {
        let mut out: Vec<u8> = Vec::new();
        write_u32(&mut out, self.min_x);
        write_u32(&mut out, self.min_y);
        write_u32(&mut out, self.max_x);
        write_u32(&mut out, self.max_y);
        assert(out@ =~= self.spec_bytes());
        write_all(buffer, out.as_slice());
        Ok(())
    }
}

/// The sides of the playable area from which it can be entered.
#[derive(Debug)]
pub struct ValidLocationFlags {
    pub serialise_version: u16,
    pub valid_north: bool,
    pub valid_south: bool,
    pub valid_east: bool,
    pub valid_west: bool,
}

impl ValidLocationFlags {
    /// True when nothing is set: every number is zero, every switch is off, every text
    /// and every list is empty, and every part is of version 0 with nothing set.
    pub open spec fn is_blank(&self) -> bool {
        !self.valid_north
            && !self.valid_south
            && !self.valid_east
            && !self.valid_west
    }

    /// The sides of the given version with nothing set.
    pub fn new(serialise_version: u16) -> (r: ValidLocationFlags)
        ensures
            r.serialise_version == serialise_version,
            r.is_blank(),
    {
        ValidLocationFlags {
            serialise_version,
            valid_north: false,
            valid_south: false,
            valid_east: false,
            valid_west: false,
        }
    }

    /// The bytes of the sides in version 1, behind the version.
    pub open spec fn spec_body_v1(&self) -> Seq<u8> {
        bool_bytes(self.valid_north)
            + bool_bytes(self.valid_south)
            + bool_bytes(self.valid_east)
            + bool_bytes(self.valid_west)
    }

    /// What stands against writing the sides in version 1, where anything does.
    pub open spec fn spec_fault_v1(&self) -> Option<RLibError> {
        None
    }

    /// Where reading the sides in version 1 ends.
    pub open spec fn spec_end_v1(data: Seq<u8>, pos: int) -> core::result::Result<int, RLibError> {
        match bool_end(data, pos) {
            Err(e) => Err(e),
            Ok(mark1) => match bool_end(data, mark1) {
                Err(e) => Err(e),
                Ok(mark2) => match bool_end(data, mark2) {
                    Err(e) => Err(e),
                    Ok(mark3) => bool_end(data, mark3),
                },
            },
        }
    }

    /// Reads the sides as version 1 has it. On failure `self` stays as it was.
    pub fn read_v1(&mut self, data: &[u8], index: &mut usize) -> (r: Result<()>)
        ensures
            match ValidLocationFlags::spec_end_v1(data@, *old(index) as int) {
                Ok(end) => r is Ok && *final(index) == end && *old(index) <= end <= data@.len()
                    && final(self).serialise_version == old(self).serialise_version
                    && final(self).spec_fault_v1() is None
                    && final(self).spec_body_v1() == data@.subrange(*old(index) as int, end),
                Err(e) => r == Err::<(), RLibError>(e) && *final(index) == *old(index)
                    && *final(self) == *old(self),
            },
    {
        let mut at: usize = *index;
        let ghost mark0 = at as int;
        let valid_north = take_bool(data, &mut at)?;
        let ghost mark1 = at as int;
        let valid_south = take_bool(data, &mut at)?;
        let ghost mark2 = at as int;
        let valid_east = take_bool(data, &mut at)?;
        let ghost mark3 = at as int;
        let valid_west = take_bool(data, &mut at)?;
        let ghost mark4 = at as int;
        self.valid_north = valid_north;
        self.valid_south = valid_south;
        self.valid_east = valid_east;
        self.valid_west = valid_west;
        proof {
            lemma_subrange_join(data@, mark0, mark1, mark2);
            lemma_subrange_join(data@, mark0, mark2, mark3);
            lemma_subrange_join(data@, mark0, mark3, mark4);
        }
        *index = at;
        Ok(())
    }

    /// Appends the sides as version 1 has it. On failure nothing is appended.
    pub fn write_v1(&self, buffer: &mut Vec<u8>) -> (r: Result<()>)
        ensures
            match self.spec_fault_v1() {
                None => r is Ok && final(buffer)@ == old(buffer)@ + self.spec_body_v1(),
                Some(e) => r == Err::<(), RLibError>(e) && final(buffer)@ == old(buffer)@,
            },
    {
        let mut out: Vec<u8> = Vec::new();
        write_bool(&mut out, self.valid_north);
        write_bool(&mut out, self.valid_south);
        write_bool(&mut out, self.valid_east);
        write_bool(&mut out, self.valid_west);
        assert(out@ =~= self.spec_body_v1());
        write_all(buffer, out.as_slice());
        Ok(())
    }

    /// True when the two hold the same in what version 1 writes.
    pub open spec fn spec_same_v1(&self, other: &Self) -> bool {
        self.valid_north == other.valid_north
            && self.valid_south == other.valid_south
            && self.valid_east == other.valid_east
            && self.valid_west == other.valid_west
    }

    /// What version 1 writes of the sides, followed by anything, tells what was written.
    pub proof fn lemma_same_v1(a: Self, b: Self, x: Seq<u8>, y: Seq<u8>)
        requires
            a.spec_fault_v1() is None,
            b.spec_fault_v1() is None,
            a.spec_body_v1() + x == b.spec_body_v1() + y,
        ensures
            a.spec_same_v1(&b),
            a.spec_body_v1() == b.spec_body_v1(),
            x == y,
    {
        let ta3 = bool_bytes(a.valid_west) + x;
        let tb3 = bool_bytes(b.valid_west) + y;
        let ta2 = bool_bytes(a.valid_east) + ta3;
        let tb2 = bool_bytes(b.valid_east) + tb3;
        let ta1 = bool_bytes(a.valid_south) + ta2;
        let tb1 = bool_bytes(b.valid_south) + tb2;
        let ha2 = bool_bytes(a.valid_north) + bool_bytes(a.valid_south);
        let hb2 = bool_bytes(b.valid_north) + bool_bytes(b.valid_south);
        let ha3 = ha2 + bool_bytes(a.valid_east);
        let hb3 = hb2 + bool_bytes(b.valid_east);
        lemma_join(ha3, bool_bytes(a.valid_west), x);
        lemma_join(hb3, bool_bytes(b.valid_west), y);
        lemma_join(ha2, bool_bytes(a.valid_east), ta3);
        lemma_join(hb2, bool_bytes(b.valid_east), tb3);
        lemma_join(bool_bytes(a.valid_north), bool_bytes(a.valid_south), ta2);
        lemma_join(bool_bytes(b.valid_north), bool_bytes(b.valid_south), tb2);
        lemma_bool_prefix(a.valid_north, b.valid_north, ta1, tb1);
        lemma_bool_prefix(a.valid_south, b.valid_south, ta2, tb2);
        lemma_bool_prefix(a.valid_east, b.valid_east, ta3, tb3);
        lemma_bool_prefix(a.valid_west, b.valid_west, x, y);
    }

    /// What version 1 writes of the sides can be read: where those bytes stand, reading ends
    /// right behind them.
    pub proof fn lemma_read_back_v1(a: Self, data: Seq<u8>, pos: int, end: int)
        requires
            a.spec_fault_v1() is None,
            stands(data, pos, end, a.spec_body_v1()),
        ensures
            Self::spec_end_v1(data, pos) == Ok::<int, RLibError>(end),
    {
        let h2 = bool_bytes(a.valid_north) + bool_bytes(a.valid_south);
        let h3 = h2 + bool_bytes(a.valid_east);
        let m1 = after(pos, bool_bytes(a.valid_north));
        let m2 = after(pos, h2);
        let m3 = after(pos, h3);
        lemma_split(data, pos, end, h3, bool_bytes(a.valid_west));
        lemma_split(data, pos, m3, h2, bool_bytes(a.valid_east));
        lemma_split(data, pos, m2, bool_bytes(a.valid_north), bool_bytes(a.valid_south));
        lemma_bool_read_back(a.valid_north, data, pos, m1);
        lemma_bool_read_back(a.valid_south, data, m1, m2);
        lemma_bool_read_back(a.valid_east, data, m2, m3);
        lemma_bool_read_back(a.valid_west, data, m3, end);
    }
}

impl Block for ValidLocationFlags {
    /// The bytes of the sides: the version, then what the version lays out.
    open spec fn spec_bytes(&self) -> Seq<u8> {
        u16_bytes(self.serialise_version) + (if self.serialise_version == 1 {
            self.spec_body_v1()
        } else {
            Seq::empty()
        })
    }

    /// What stands against writing the sides: a version that cannot be written, or a part
    /// that cannot.
    open spec fn spec_fault(&self) -> Option<RLibError> {
        if self.serialise_version == 1 {
            self.spec_fault_v1()
        } else {
            Some(
                RLibError::EncodingUnsupportedVersion(
                    Entity::ValidLocationFlags,
                    self.serialise_version as u32,
                ),
            )
        }
    }

    /// Where reading the sides at `pos` ends: the version must be one that can be read.
    open spec fn spec_end(data: Seq<u8>, pos: int) -> core::result::Result<int, RLibError> {
        match parse_u16(data, pos) {
            Err(e) => Err(e),
            Ok((version, next)) => if version == 1 {
                ValidLocationFlags::spec_end_v1(data, next)
            } else {
                Err(
                    RLibError::DecodingUnsupportedVersion(
                        Entity::ValidLocationFlags,
                        version as u32,
                    ),
                )
            },
        }
    }

    /// True when the two are of one version and hold the same in what that version
    /// writes.
    open spec fn spec_same(&self, other: &Self) -> bool {
        self.serialise_version == other.serialise_version
            && (self.serialise_version == 1 ==> self.spec_same_v1(other))
    }

    proof fn lemma_same(a: Self, b: Self, x: Seq<u8>, y: Seq<u8>) {
        let body_a = a.spec_body_v1();
        let body_b = b.spec_body_v1();
        lemma_join(u16_bytes(a.serialise_version), body_a, x);
        lemma_join(u16_bytes(b.serialise_version), body_b, y);
        lemma_u16_prefix(a.serialise_version, b.serialise_version, body_a + x, body_b + y);
        Self::lemma_same_v1(a, b, x, y);
    }

    proof fn lemma_read_back(a: Self, data: Seq<u8>, pos: int, end: int) {
        let body = a.spec_body_v1();
        let mid = after(pos, u16_bytes(a.serialise_version));
        lemma_split(data, pos, end, u16_bytes(a.serialise_version), body);
        lemma_u16_read_back(a.serialise_version, data, pos, mid);
        Self::lemma_read_back_v1(a, data, mid, end);
    }

    fn decode(data: &[u8], index: &mut usize) -> (r: Result<Self>) {
        let mut at: usize = *index;
        let version = take_u16(data, &mut at)?;
        let mut decoded = ValidLocationFlags::new(version);
        let ghost body = at as int;
        match version {
            1 => decoded.read_v1(data, &mut at)?,
            _ => {
                return Err(
                    RLibError::DecodingUnsupportedVersion(
                        Entity::ValidLocationFlags,
                        version as u32,
                    ),
                );
            },
        }
        proof {
            lemma_subrange_join(data@, *index as int, body, at as int);
        }
        *index = at;
        Ok(decoded)
    }

    fn encode(&self, buffer: &mut Vec<u8>) -> (r: Result<()>) {
        let mut out: Vec<u8> = Vec::new();
        write_u16(&mut out, self.serialise_version);
        match self.serialise_version {
            1 => self.write_v1(&mut out)?,
            _ => {
                return Err(
                    RLibError::EncodingUnsupportedVersion(
                        Entity::ValidLocationFlags,
                        self.serialise_version as u32,
                    ),
                );
            },
        }
        assert(out@ =~= self.spec_bytes());
        write_all(buffer, out.as_slice());
        Ok(())
    }
}

/// The part of a battlefield that can be played on.
#[derive(Debug)]
pub struct PlayableArea {
    pub serialise_version: u16,
    pub area: Rectangle,
    pub has_been_set: bool,
    pub valid_location_flags: ValidLocationFlags,
}

impl PlayableArea {
    /// True when nothing is set: every number is zero, every switch is off, every text
    /// and every list is empty, and every part is of version 0 with nothing set.
    pub open spec fn is_blank(&self) -> bool {
        self.area == (Rectangle { min_x: 0, min_y: 0, max_x: 0, max_y: 0 })
            && !self.has_been_set
            && self.valid_location_flags.serialise_version == 0
            && self.valid_location_flags.is_blank()
    }

    /// The playable area of the given version with nothing set.
    pub fn new(serialise_version: u16) -> (r: PlayableArea)
        ensures
            r.serialise_version == serialise_version,
            r.is_blank(),
    {
        PlayableArea {
            serialise_version,
            area: Rectangle { min_x: 0, min_y: 0, max_x: 0, max_y: 0 },
            has_been_set: false,
            valid_location_flags: ValidLocationFlags::new(0),
        }
    }

    /// The bytes of the playable area in version 2, behind the version.
    pub open spec fn spec_body_v2(&self) -> Seq<u8> {
        self.area.spec_bytes()
            + bool_bytes(self.has_been_set)
    }

    /// What stands against writing the playable area in version 2, where anything does.
    pub open spec fn spec_fault_v2(&self) -> Option<RLibError> {
        self.area.spec_fault()
    }

    /// Where reading the playable area in version 2 ends.
    pub open spec fn spec_end_v2(data: Seq<u8>, pos: int) -> core::result::Result<int, RLibError> {
        match Rectangle::spec_end(data, pos) {
            Err(e) => Err(e),
            Ok(mark1) => bool_end(data, mark1),
        }
    }

    /// Reads the playable area as version 2 has it. On failure `self` stays as it was.
    pub fn read_v2(&mut self, data: &[u8], index: &mut usize) -> (r: Result<()>)
        ensures
            match PlayableArea::spec_end_v2(data@, *old(index) as int) {
                Ok(end) => r is Ok && *final(index) == end && *old(index) <= end <= data@.len()
                    && final(self).serialise_version == old(self).serialise_version
                    && final(self).valid_location_flags == old(self).valid_location_flags
                    && final(self).spec_fault_v2() is None
                    && final(self).spec_body_v2() == data@.subrange(*old(index) as int, end),
                Err(e) => r == Err::<(), RLibError>(e) && *final(index) == *old(index)
                    && *final(self) == *old(self),
            },
    {
        let mut at: usize = *index;
        let ghost mark0 = at as int;
        let area = Rectangle::decode(data, &mut at)?;
        let ghost mark1 = at as int;
        let has_been_set = take_bool(data, &mut at)?;
        let ghost mark2 = at as int;
        self.area = area;
        self.has_been_set = has_been_set;
        proof {
            lemma_subrange_join(data@, mark0, mark1, mark2);
        }
        *index = at;
        Ok(())
    }

    /// Appends the playable area as version 2 has it. On failure nothing is appended.
    pub fn write_v2(&self, buffer: &mut Vec<u8>) -> (r: Result<()>)
        ensures
            match self.spec_fault_v2() {
                None => r is Ok && final(buffer)@ == old(buffer)@ + self.spec_body_v2(),
                Some(e) => r == Err::<(), RLibError>(e) && final(buffer)@ == old(buffer)@,
            },
    {
        let mut out: Vec<u8> = Vec::new();
        self.area.encode(&mut out)?;
        write_bool(&mut out, self.has_been_set);
        assert(out@ =~= self.spec_body_v2());
        write_all(buffer, out.as_slice());
        Ok(())
    }

    /// The bytes of the playable area in version 3, behind the version.
    pub open spec fn spec_body_v3(&self) -> Seq<u8> {
        self.area.spec_bytes()
            + bool_bytes(self.has_been_set)
            + self.valid_location_flags.spec_bytes()
    }

    /// What stands against writing the playable area in version 3, where anything does.
    pub open spec fn spec_fault_v3(&self) -> Option<RLibError> {
        or_fault(self.area.spec_fault(), self.valid_location_flags.spec_fault())
    }

    /// Where reading the playable area in version 3 ends.
    pub open spec fn spec_end_v3(data: Seq<u8>, pos: int) -> core::result::Result<int, RLibError> {
        match Rectangle::spec_end(data, pos) {
            Err(e) => Err(e),
            Ok(mark1) => match bool_end(data, mark1) {
                Err(e) => Err(e),
                Ok(mark2) => ValidLocationFlags::spec_end(data, mark2),
            },
        }
    }

    /// Reads the playable area as version 3 has it. On failure `self` stays as it was.
    pub fn read_v3(&mut self, data: &[u8], index: &mut usize) -> (r: Result<()>)
        ensures
            match PlayableArea::spec_end_v3(data@, *old(index) as int) {
                Ok(end) => r is Ok && *final(index) == end && *old(index) <= end <= data@.len()
                    && final(self).serialise_version == old(self).serialise_version
                    && final(self).spec_fault_v3() is None
                    && final(self).spec_body_v3() == data@.subrange(*old(index) as int, end),
                Err(e) => r == Err::<(), RLibError>(e) && *final(index) == *old(index)
                    && *final(self) == *old(self),
            },
    {
        let mut at: usize = *index;
        let ghost mark0 = at as int;
        let area = Rectangle::decode(data, &mut at)?;
        let ghost mark1 = at as int;
        let has_been_set = take_bool(data, &mut at)?;
        let ghost mark2 = at as int;
        let valid_location_flags = ValidLocationFlags::decode(data, &mut at)?;
        let ghost mark3 = at as int;
        self.area = area;
        self.has_been_set = has_been_set;
        self.valid_location_flags = valid_location_flags;
        proof {
            lemma_subrange_join(data@, mark0, mark1, mark2);
            lemma_subrange_join(data@, mark0, mark2, mark3);
        }
        *index = at;
        Ok(())
    }

    /// Appends the playable area as version 3 has it. On failure nothing is appended.
    pub fn write_v3(&self, buffer: &mut Vec<u8>) -> (r: Result<()>)
        ensures
            match self.spec_fault_v3() {
                None => r is Ok && final(buffer)@ == old(buffer)@ + self.spec_body_v3(),
                Some(e) => r == Err::<(), RLibError>(e) && final(buffer)@ == old(buffer)@,
            },
    {
        let mut out: Vec<u8> = Vec::new();
        self.area.encode(&mut out)?;
        write_bool(&mut out, self.has_been_set);
        self.valid_location_flags.encode(&mut out)?;
        assert(out@ =~= self.spec_body_v3());
        write_all(buffer, out.as_slice());
        Ok(())
    }

    /// True when the two hold the same in what version 2 writes.
    pub open spec fn spec_same_v2(&self, other: &Self) -> bool {
        self.area.spec_same(&other.area)
            && self.has_been_set == other.has_been_set
    }

    /// What version 2 writes of a playable area, followed by anything, tells what was written.
    pub proof fn lemma_same_v2(a: Self, b: Self, x: Seq<u8>, y: Seq<u8>)
        requires
            a.spec_fault_v2() is None,
            b.spec_fault_v2() is None,
            a.spec_body_v2() + x == b.spec_body_v2() + y,
        ensures
            a.spec_same_v2(&b),
            a.spec_body_v2() == b.spec_body_v2(),
            x == y,
    {
        let ta1 = bool_bytes(a.has_been_set) + x;
        let tb1 = bool_bytes(b.has_been_set) + y;
        lemma_join(a.area.spec_bytes(), bool_bytes(a.has_been_set), x);
        lemma_join(b.area.spec_bytes(), bool_bytes(b.has_been_set), y);
        Rectangle::lemma_same(a.area, b.area, ta1, tb1);
        lemma_bool_prefix(a.has_been_set, b.has_been_set, x, y);
    }

    /// True when the two hold the same in what version 3 writes.
    pub open spec fn spec_same_v3(&self, other: &Self) -> bool {
        self.area.spec_same(&other.area)
            && self.has_been_set == other.has_been_set
            && self.valid_location_flags.spec_same(&other.valid_location_flags)
    }

    /// What version 3 writes of a playable area, followed by anything, tells what was written.
    pub proof fn lemma_same_v3(a: Self, b: Self, x: Seq<u8>, y: Seq<u8>)
        requires
            a.spec_fault_v3() is None,
            b.spec_fault_v3() is None,
            a.spec_body_v3() + x == b.spec_body_v3() + y,
        ensures
            a.spec_same_v3(&b),
            a.spec_body_v3() == b.spec_body_v3(),
            x == y,
    {
        let ta2 = a.valid_location_flags.spec_bytes() + x;
        let tb2 = b.valid_location_flags.spec_bytes() + y;
        let ta1 = bool_bytes(a.has_been_set) + ta2;
        let tb1 = bool_bytes(b.has_been_set) + tb2;
        let ha2 = a.area.spec_bytes() + bool_bytes(a.has_been_set);
        let hb2 = b.area.spec_bytes() + bool_bytes(b.has_been_set);
        lemma_join(ha2, a.valid_location_flags.spec_bytes(), x);
        lemma_join(hb2, b.valid_location_flags.spec_bytes(), y);
        lemma_join(a.area.spec_bytes(), bool_bytes(a.has_been_set), ta2);
        lemma_join(b.area.spec_bytes(), bool_bytes(b.has_been_set), tb2);
        Rectangle::lemma_same(a.area, b.area, ta1, tb1);
        lemma_bool_prefix(a.has_been_set, b.has_been_set, ta2, tb2);
        ValidLocationFlags::lemma_same(a.valid_location_flags, b.valid_location_flags, x, y);
    }

    /// What version 2 writes of a playable area can be read: where those bytes stand, reading ends
    /// right behind them.
    pub proof fn lemma_read_back_v2(a: Self, data: Seq<u8>, pos: int, end: int)
        requires
            a.spec_fault_v2() is None,
            stands(data, pos, end, a.spec_body_v2()),
        ensures
            Self::spec_end_v2(data, pos) == Ok::<int, RLibError>(end),
    {
        let m1 = after(pos, a.area.spec_bytes());
        lemma_split(data, pos, end, a.area.spec_bytes(), bool_bytes(a.has_been_set));
        Rectangle::lemma_read_back(a.area, data, pos, m1);
        lemma_bool_read_back(a.has_been_set, data, m1, end);
    }

    /// What version 3 writes of a playable area can be read: where those bytes stand, reading ends
    /// right behind them.
    pub proof fn lemma_read_back_v3(a: Self, data: Seq<u8>, pos: int, end: int)
        requires
            a.spec_fault_v3() is None,
            stands(data, pos, end, a.spec_body_v3()),
        ensures
            Self::spec_end_v3(data, pos) == Ok::<int, RLibError>(end),
    {
        let h2 = a.area.spec_bytes() + bool_bytes(a.has_been_set);
        let m1 = after(pos, a.area.spec_bytes());
        let m2 = after(pos, h2);
        lemma_split(data, pos, end, h2, a.valid_location_flags.spec_bytes());
        lemma_split(data, pos, m2, a.area.spec_bytes(), bool_bytes(a.has_been_set));
        Rectangle::lemma_read_back(a.area, data, pos, m1);
        lemma_bool_read_back(a.has_been_set, data, m1, m2);
        ValidLocationFlags::lemma_read_back(a.valid_location_flags, data, m2, end);
    }
}

impl Block for PlayableArea {
    /// The bytes of the playable area: the version, then what the version lays out.
    open spec fn spec_bytes(&self) -> Seq<u8> {
        u16_bytes(self.serialise_version) + (if self.serialise_version == 2 {
            self.spec_body_v2()
        } else if self.serialise_version == 3 {
            self.spec_body_v3()
        } else {
            Seq::empty()
        })
    }

    /// What stands against writing the playable area: a version that cannot be written, or a part
    /// that cannot.
    open spec fn spec_fault(&self) -> Option<RLibError> {
        if self.serialise_version == 2 {
            self.spec_fault_v2()
        } else if self.serialise_version == 3 {
            self.spec_fault_v3()
        } else {
            Some(
                RLibError::EncodingUnsupportedVersion(
                    Entity::PlayableArea,
                    self.serialise_version as u32,
                ),
            )
        }
    }

    /// Where reading the playable area at `pos` ends: the version must be one that can be read.
    open spec fn spec_end(data: Seq<u8>, pos: int) -> core::result::Result<int, RLibError> {
        match parse_u16(data, pos) {
            Err(e) => Err(e),
            Ok((version, next)) => if version == 2 {
                PlayableArea::spec_end_v2(data, next)
            } else if version == 3 {
                PlayableArea::spec_end_v3(data, next)
            } else {
                Err(RLibError::DecodingUnsupportedVersion(Entity::PlayableArea, version as u32))
            },
        }
    }

    /// True when the two are of one version and hold the same in what that version
    /// writes.
    open spec fn spec_same(&self, other: &Self) -> bool {
        self.serialise_version == other.serialise_version
            && (self.serialise_version == 2 ==> self.spec_same_v2(other))
            && (self.serialise_version == 3 ==> self.spec_same_v3(other))
    }

    proof fn lemma_same(a: Self, b: Self, x: Seq<u8>, y: Seq<u8>) {
        let body_a = if a.serialise_version == 2 { a.spec_body_v2() } else { a.spec_body_v3() };
        let body_b = if b.serialise_version == 2 { b.spec_body_v2() } else { b.spec_body_v3() };
        lemma_join(u16_bytes(a.serialise_version), body_a, x);
        lemma_join(u16_bytes(b.serialise_version), body_b, y);
        lemma_u16_prefix(a.serialise_version, b.serialise_version, body_a + x, body_b + y);
        if a.serialise_version == 2 {
            Self::lemma_same_v2(a, b, x, y);
        } else {
            Self::lemma_same_v3(a, b, x, y);
        }
    }

    proof fn lemma_read_back(a: Self, data: Seq<u8>, pos: int, end: int) {
        let body = if a.serialise_version == 2 {
            a.spec_body_v2()
        } else {
            a.spec_body_v3()
        };
        let mid = after(pos, u16_bytes(a.serialise_version));
        lemma_split(data, pos, end, u16_bytes(a.serialise_version), body);
        lemma_u16_read_back(a.serialise_version, data, pos, mid);
        if a.serialise_version == 2 {
            Self::lemma_read_back_v2(a, data, mid, end);
        } else {
            Self::lemma_read_back_v3(a, data, mid, end);
        }
    }

    fn decode(data: &[u8], index: &mut usize) -> (r: Result<Self>) {
        let mut at: usize = *index;
        let version = take_u16(data, &mut at)?;
        let mut decoded = PlayableArea::new(version);
        let ghost body = at as int;
        match version {
            2 => decoded.read_v2(data, &mut at)?,
            3 => decoded.read_v3(data, &mut at)?,
            _ => {
                return Err(
                    RLibError::DecodingUnsupportedVersion(Entity::PlayableArea, version as u32),
                );
            },
        }
        proof {
            lemma_subrange_join(data@, *index as int, body, at as int);
        }
        *index = at;
        Ok(decoded)
    }

    fn encode(&self, buffer: &mut Vec<u8>) -> (r: Result<()>) {
        let mut out: Vec<u8> = Vec::new();
        write_u16(&mut out, self.serialise_version);
        match self.serialise_version {
            2 => self.write_v2(&mut out)?,
            3 => self.write_v3(&mut out)?,
            _ => {
                return Err(
                    RLibError::EncodingUnsupportedVersion(
                        Entity::PlayableArea,
                        self.serialise_version as u32,
                    ),
                );
            },
        }
        assert(out@ =~= self.spec_bytes());
        write_all(buffer, out.as_slice());
        Ok(())
    }
}

} // verus!
