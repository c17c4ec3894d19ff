//! Capture locations.

use vstd::prelude::*;

use crate::binary::{
    lemma_subrange_join, parse_u16, sized_string_u8_bytes, u16_bytes, u32_bytes, write_all,
    write_sized_string_u8, write_u16, write_u32,
};
use crate::error::{Entity, RLibError, Result};
use crate::fastbin::read_back::{
    after, lemma_split, lemma_text_read_back, lemma_u16_read_back, lemma_u32_read_back, stands,
};
use crate::fastbin::prefix::{lemma_join, lemma_text_prefix, lemma_u16_prefix, lemma_u32_prefix};
use crate::fastbin::common::{
    numbers_end_bytes, take_text, take_u16, take_u32, text_end, text_fault, Block,
};

verus! {

/// A place that can be captured.
#[derive(Debug)]
pub struct CaptureLocation {
    /// A float held by its bits, as the other numbers here.
    pub x: u32,
    pub y: u32,
    pub radius: u32,
    pub capture_point_type: String,
}

impl Block for CaptureLocation {
    /// The bytes of a capture location.
    open spec fn spec_bytes(&self) -> Seq<u8> {
        u32_bytes(self.x)
            + u32_bytes(self.y)
            + u32_bytes(self.radius)
            + sized_string_u8_bytes(self.capture_point_type@)
    }

    /// What stands against writing a capture location, where anything does.
    open spec fn spec_fault(&self) -> Option<RLibError> {
        text_fault(self.capture_point_type@)
    }

    /// Where reading a capture location at `pos` ends.
    open spec fn spec_end(data: Seq<u8>, pos: int) -> core::result::Result<int, RLibError> {
        match numbers_end_bytes(data, pos, 4) {
            Err(e) => Err(e),
            Ok(mark1) => match numbers_end_bytes(data, mark1, 4) {
                Err(e) => Err(e),
                Ok(mark2) => match numbers_end_bytes(data, mark2, 4) {
                    Err(e) => Err(e),
                    Ok(mark3) => text_end(data, mark3),
                },
            },
        }
    }

    /// True when the two hold the same.
    open spec fn spec_same(&self, other: &Self) -> bool {
        self.x == other.x
            && self.y == other.y
            && self.radius == other.radius
            && self.capture_point_type@ == other.capture_point_type@
    }

    proof fn lemma_same(a: Self, b: Self, x: Seq<u8>, y: Seq<u8>) {
        let ta3 = sized_string_u8_bytes(a.capture_point_type@) + x;
        let tb3 = sized_string_u8_bytes(b.capture_point_type@) + y;
        let ta2 = u32_bytes(a.radius) + ta3;
        let tb2 = u32_bytes(b.radius) + tb3;
        let ta1 = u32_bytes(a.y) + ta2;
        let tb1 = u32_bytes(b.y) + tb2;
        let ha2 = u32_bytes(a.x) + u32_bytes(a.y);
        let hb2 = u32_bytes(b.x) + u32_bytes(b.y);
        let ha3 = ha2 + u32_bytes(a.radius);
        let hb3 = hb2 + u32_bytes(b.radius);
        lemma_join(ha3, sized_string_u8_bytes(a.capture_point_type@), x);
        lemma_join(hb3, sized_string_u8_bytes(b.capture_point_type@), y);
        lemma_join(ha2, u32_bytes(a.radius), ta3);
        lemma_join(hb2, u32_bytes(b.radius), tb3);
        lemma_join(u32_bytes(a.x), u32_bytes(a.y), ta2);
        lemma_join(u32_bytes(b.x), u32_bytes(b.y), tb2);
        lemma_u32_prefix(a.x, b.x, ta1, tb1);
        lemma_u32_prefix(a.y, b.y, ta2, tb2);
        lemma_u32_prefix(a.radius, b.radius, ta3, tb3);
        lemma_text_prefix(a.capture_point_type@, b.capture_point_type@, x, y);
    }

    proof fn lemma_read_back(a: Self, data: Seq<u8>, pos: int, end: int) {
        let h2 = u32_bytes(a.x) + u32_bytes(a.y);
        let h3 = h2 + u32_bytes(a.radius);
        let m1 = after(pos, u32_bytes(a.x));
        let m2 = after(pos, h2);
        let m3 = after(pos, h3);
        lemma_split(data, pos, end, h3, sized_string_u8_bytes(a.capture_point_type@));
        lemma_split(data, pos, m3, h2, u32_bytes(a.radius));
        lemma_split(data, pos, m2, u32_bytes(a.x), u32_bytes(a.y));
        lemma_u32_read_back(a.x, data, pos, m1);
        lemma_u32_read_back(a.y, data, m1, m2);
        lemma_u32_read_back(a.radius, data, m2, m3);
        lemma_text_read_back(a.capture_point_type@, data, m3, end);
    }

    fn decode(data: &[u8], index: &mut usize) -> (r: Result<Self>) {
        let mut at: usize = *index;
        let ghost mark0 = at as int;
        let x = take_u32(data, &mut at)?;
        let ghost mark1 = at as int;
        let y = take_u32(data, &mut at)?;
        let ghost mark2 = at as int;
        let radius = take_u32(data, &mut at)?;
        let ghost mark3 = at as int;
        let capture_point_type = take_text(data, &mut at)?;
        let ghost mark4 = at as int;
        let decoded = CaptureLocation { x, y, radius, capture_point_type };
        proof {
            lemma_subrange_join(data@, mark0, mark1, mark2);
            lemma_subrange_join(data@, mark0, mark2, mark3);
            lemma_subrange_join(data@, mark0, mark3, mark4);
        }
        *index = at;
        Ok(decoded)
    }

    fn encode(&self, buffer: &mut Vec<u8>) -> (r: Result<()>) {
        let mut out: Vec<u8> = Vec::new();
        write_u32(&mut out, self.x);
        write_u32(&mut out, self.y);
        write_u32(&mut out, self.radius);
        write_sized_string_u8(&mut out, self.capture_point_type.as_str())?;
        assert(out@ =~= self.spec_bytes());
        write_all(buffer, out.as_slice());
        Ok(())
    }
}

/// The places of a battlefield that can be captured, in sets.
#[derive(Debug)]
pub struct CaptureLocationSet {
    pub serialise_version: u16,
    pub capture_location_sets: Vec<Vec<CaptureLocation>>,
}

impl CaptureLocationSet {
    /// True when nothing is set: every number is zero, every switch is off, every text
    /// and every list is empty, and every part is of version 0 with nothing set.
    pub open spec fn is_blank(&self) -> bool {
        self.capture_location_sets@.len() == 0
    }

    /// The sets of capture locations of the given version with nothing set.
    pub fn new(serialise_version: u16) -> (r: CaptureLocationSet)
        ensures
            r.serialise_version == serialise_version,
            r.is_blank(),
    {
        CaptureLocationSet {
            serialise_version,
            capture_location_sets: Vec::new(),
        }
    }

    /// The bytes of the sets of capture locations in version 11, behind the version.
    pub open spec fn spec_body_v11(&self) -> Seq<u8> {
        self.capture_location_sets.spec_bytes()
    }

    /// What stands against writing the sets of capture locations in version 11, where anything
    /// does.
    pub open spec fn spec_fault_v11(&self) -> Option<RLibError> {
        self.capture_location_sets.spec_fault()
    }

    /// Where reading the sets of capture locations in version 11 ends.
    pub open spec fn spec_end_v11(data: Seq<u8>, pos: int) -> core::result::Result<int, RLibError> {
        <Vec<Vec<CaptureLocation>>>::spec_end(data, pos)
    }

    /// Reads the sets of capture locations as version 11 has it. On failure `self` stays as it was.
    pub fn read_v11(&mut self, data: &[u8], index: &mut usize) -> (r: Result<()>)
        ensures
            match CaptureLocationSet::spec_end_v11(data@, *old(index) as int) {
                Ok(end) => r is Ok && *final(index) == end && *old(index) <= end <= data@.len()
                    && final(self).serialise_version == old(self).serialise_version
                    && final(self).spec_fault_v11() is None
                    && final(self).spec_body_v11() == data@.subrange(*old(index) as int, end),
                Err(e) => r == Err::<(), RLibError>(e) && *final(index) == *old(index)
                    && *final(self) == *old(self),
            },
    {
        let mut at: usize = *index;
        let ghost mark0 = at as int;
        let capture_location_sets = <Vec<Vec<CaptureLocation>>>::decode(data, &mut at)?;
        let ghost mark1 = at as int;
        self.capture_location_sets = capture_location_sets;
        *index = at;
        Ok(())
    }

    /// Appends the sets of capture locations as version 11 has it. On failure nothing is appended.
    pub fn write_v11(&self, buffer: &mut Vec<u8>) -> (r: Result<()>)
        ensures
            match self.spec_fault_v11() {
                None => r is Ok && final(buffer)@ == old(buffer)@ + self.spec_body_v11(),
                Some(e) => r == Err::<(), RLibError>(e) && final(buffer)@ == old(buffer)@,
            },
    {
        let mut out: Vec<u8> = Vec::new();
        self.capture_location_sets.encode(&mut out)?;
        assert(out@ =~= self.spec_body_v11());
        write_all(buffer, out.as_slice());
        Ok(())
    }

    /// True when the two hold the same in what version 11 writes.
    pub open spec fn spec_same_v11(&self, other: &Self) -> bool {
        self.capture_location_sets.spec_same(&other.capture_location_sets)
    }

    /// What version 11 writes of the capture locations, followed by anything, tells what was
    /// written.
    pub proof fn lemma_same_v11(a: Self, b: Self, x: Seq<u8>, y: Seq<u8>)
        requires
            a.spec_fault_v11() is None,
            b.spec_fault_v11() is None,
            a.spec_body_v11() + x == b.spec_body_v11() + y,
        ensures
            a.spec_same_v11(&b),
            a.spec_body_v11() == b.spec_body_v11(),
            x == y,
    {
        Vec::<Vec::<CaptureLocation>>::lemma_same(
            a.capture_location_sets,
            b.capture_location_sets,
            x,
            y,
        );
    }

    /// What version 11 writes of the capture locations can be read: where those bytes stand, reading ends
    /// right behind them.
    pub proof fn lemma_read_back_v11(a: Self, data: Seq<u8>, pos: int, end: int)
        requires
            a.spec_fault_v11() is None,
            stands(data, pos, end, a.spec_body_v11()),
        ensures
            Self::spec_end_v11(data, pos) == Ok::<int, RLibError>(end),
    {
        Vec::<Vec::<CaptureLocation>>::lemma_read_back(a.capture_location_sets, data, pos, end);
    }
}

impl Block for CaptureLocationSet {
    /// The bytes of the sets of capture locations: the version, then what the version lays out.
    open spec fn spec_bytes(&self) -> Seq<u8> {
        u16_bytes(self.serialise_version) + (if self.serialise_version == 11 {
            self.spec_body_v11()
        } else {
            Seq::empty()
        })
    }

    /// What stands against writing the sets of capture locations: a version that cannot be written,
    /// or a part that cannot.
    open spec fn spec_fault(&self) -> Option<RLibError> {
        if self.serialise_version == 11 {
            self.spec_fault_v11()
        } else {
            Some(
                RLibError::EncodingUnsupportedVersion(
                    Entity::CaptureLocationSet,
                    self.serialise_version as u32,
                ),
            )
        }
    }

    /// Where reading the sets of capture locations at `pos` ends: the version must be one that can
    /// be read.
    open spec fn spec_end(data: Seq<u8>, pos: int) -> core::result::Result<int, RLibError> {
        match parse_u16(data, pos) {
            Err(e) => Err(e),
            Ok((version, next)) => if version == 11 {
                CaptureLocationSet::spec_end_v11(data, next)
            } else {
                Err(
                    RLibError::DecodingUnsupportedVersion(
                        Entity::CaptureLocationSet,
                        version as u32,
                    ),
                )
            },
        }
    }

    /// True when the two are of one version and hold the same in what that version
    /// writes.
    open spec fn spec_same(&self, other: &Self) -> bool {
        self.serialise_version == other.serialise_version
            && (self.serialise_version == 11 ==> self.spec_same_v11(other))
    }

    proof fn lemma_same(a: Self, b: Self, x: Seq<u8>, y: Seq<u8>) {
        let body_a = a.spec_body_v11();
        let body_b = b.spec_body_v11();
        lemma_join(u16_bytes(a.serialise_version), body_a, x);
        lemma_join(u16_bytes(b.serialise_version), body_b, y);
        lemma_u16_prefix(a.serialise_version, b.serialise_version, body_a + x, body_b + y);
        Self::lemma_same_v11(a, b, x, y);
    }

    proof fn lemma_read_back(a: Self, data: Seq<u8>, pos: int, end: int) {
        let body = a.spec_body_v11();
        let mid = after(pos, u16_bytes(a.serialise_version));
        lemma_split(data, pos, end, u16_bytes(a.serialise_version), body);
        lemma_u16_read_back(a.serialise_version, data, pos, mid);
        Self::lemma_read_back_v11(a, data, mid, end);
    }

    fn decode(data: &[u8], index: &mut usize) -> (r: Result<Self>) {
        let mut at: usize = *index;
        let version = take_u16(data, &mut at)?;
        let mut decoded = CaptureLocationSet::new(version);
        let ghost body = at as int;
        match version {
            11 => decoded.read_v11(data, &mut at)?,
            _ => {
                return Err(
                    RLibError::DecodingUnsupportedVersion(
                        Entity::CaptureLocationSet,
                        version as u32,
                    ),
                );
            },
        }
        proof {
            lemma_subrange_join(data@, *index as int, body, at as int);
        }
        *index = at;
        Ok(decoded)
    }

    fn encode(&self, buffer: &mut Vec<u8>) -> (r: Result<()>) {
        let mut out: Vec<u8> = Vec::new();
        write_u16(&mut out, self.serialise_version);
        match self.serialise_version {
            11 => self.write_v11(&mut out)?,
            _ => {
                return Err(
                    RLibError::EncodingUnsupportedVersion(
                        Entity::CaptureLocationSet,
                        self.serialise_version as u32,
                    ),
                );
            },
        }
        assert(out@ =~= self.spec_bytes());
        write_all(buffer, out.as_slice());
        Ok(())
    }
}

} // verus!
