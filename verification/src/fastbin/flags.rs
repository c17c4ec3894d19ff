//! The flags of props and lights.

use vstd::prelude::*;

use crate::binary::{
    bool_bytes, lemma_subrange_join, parse_u16, u16_bytes, write_all, write_bool, write_u16,
};
use crate::error::{Entity, RLibError, Result};
use crate::fastbin::read_back::{
    after, lemma_bool_read_back, lemma_split, lemma_u16_read_back, stands,
};
use crate::fastbin::prefix::{lemma_bool_prefix, lemma_join, lemma_u16_prefix};
use crate::fastbin::common::{bool_end, take_bool, take_u16, Block};

verus! {

/// The flags of a prop or a light: where and when it shows.
#[derive(Debug)]
pub struct Flags {
    pub serialise_version: u16,
    pub allow_in_outfield: bool,
    pub clamp_to_water_surface: bool,
    pub spring: bool,
    pub summer: bool,
    pub autumn: bool,
    pub winter: bool,
    pub visible_in_tactical_view: bool,
    pub visible_in_tactical_view_only: bool,
}

impl Flags {
    /// True when nothing is set: every number is zero, every switch is off, every text
    /// and every list is empty, and every part is of version 0 with nothing set.
    pub open spec fn is_blank(&self) -> bool {
        !self.allow_in_outfield
            && !self.clamp_to_water_surface
            && !self.spring
            && !self.summer
            && !self.autumn
            && !self.winter
            && !self.visible_in_tactical_view
            && !self.visible_in_tactical_view_only
    }

    /// The flags of the given version with nothing set.
    pub fn new(serialise_version: u16) -> (r: Flags)
        ensures
            r.serialise_version == serialise_version,
            r.is_blank(),
    {
        Flags {
            serialise_version,
            allow_in_outfield: false,
            clamp_to_water_surface: false,
            spring: false,
            summer: false,
            autumn: false,
            winter: false,
            visible_in_tactical_view: false,
            visible_in_tactical_view_only: false,
        }
    }

    /// The bytes of the flags in version 4, behind the version.
    pub open spec fn spec_body_v4(&self) -> Seq<u8> {
        bool_bytes(self.allow_in_outfield)
            + bool_bytes(self.clamp_to_water_surface)
            + bool_bytes(self.spring)
            + bool_bytes(self.summer)
            + bool_bytes(self.autumn)
            + bool_bytes(self.winter)
            + bool_bytes(self.visible_in_tactical_view)
            + bool_bytes(self.visible_in_tactical_view_only)
    }

    /// What stands against writing the flags in version 4, where anything does.
    pub open spec fn spec_fault_v4(&self) -> Option<RLibError> {
        None
    }

    /// Where reading the flags in version 4 ends.
    pub open spec fn spec_end_v4(data: Seq<u8>, pos: int) -> core::result::Result<int, RLibError> {
        match bool_end(data, pos) {
            Err(e) => Err(e),
            Ok(mark1) => match bool_end(data, mark1) {
                Err(e) => Err(e),
                Ok(mark2) => match bool_end(data, mark2) {
                    Err(e) => Err(e),
                    Ok(mark3) => match bool_end(data, mark3) {
                        Err(e) => Err(e),
                        Ok(mark4) => match bool_end(data, mark4) {
                            Err(e) => Err(e),
                            Ok(mark5) => match bool_end(data, mark5) {
                                Err(e) => Err(e),
                                Ok(mark6) => match bool_end(data, mark6) {
                                    Err(e) => Err(e),
                                    Ok(mark7) => bool_end(data, mark7),
                                },
                            },
                        },
                    },
                },
            },
        }
    }

    /// Reads the flags as version 4 has it. On failure `self` stays as it was.
    pub fn read_v4(&mut self, data: &[u8], index: &mut usize) -> (r: Result<()>)
        ensures
            match Flags::spec_end_v4(data@, *old(index) as int) {
                Ok(end) => r is Ok && *final(index) == end && *old(index) <= end <= data@.len()
                    && final(self).serialise_version == old(self).serialise_version
                    && final(self).spec_fault_v4() is None
                    && final(self).spec_body_v4() == data@.subrange(*old(index) as int, end),
                Err(e) => r == Err::<(), RLibError>(e) && *final(index) == *old(index)
                    && *final(self) == *old(self),
            },
    {
        let mut at: usize = *index;
        let ghost mark0 = at as int;
        let allow_in_outfield = take_bool(data, &mut at)?;
        let ghost mark1 = at as int;
        let clamp_to_water_surface = take_bool(data, &mut at)?;
        let ghost mark2 = at as int;
        let spring = take_bool(data, &mut at)?;
        let ghost mark3 = at as int;
        let summer = take_bool(data, &mut at)?;
        let ghost mark4 = at as int;
        let autumn = take_bool(data, &mut at)?;
        let ghost mark5 = at as int;
        let winter = take_bool(data, &mut at)?;
        let ghost mark6 = at as int;
        let visible_in_tactical_view = take_bool(data, &mut at)?;
        let ghost mark7 = at as int;
        let visible_in_tactical_view_only = take_bool(data, &mut at)?;
        let ghost mark8 = at as int;
        self.allow_in_outfield = allow_in_outfield;
        self.clamp_to_water_surface = clamp_to_water_surface;
        self.spring = spring;
        self.summer = summer;
        self.autumn = autumn;
        self.winter = winter;
        self.visible_in_tactical_view = visible_in_tactical_view;
        self.visible_in_tactical_view_only = visible_in_tactical_view_only;
        proof {
            lemma_subrange_join(data@, mark0, mark1, mark2);
            lemma_subrange_join(data@, mark0, mark2, mark3);
            lemma_subrange_join(data@, mark0, mark3, mark4);
            lemma_subrange_join(data@, mark0, mark4, mark5);
            lemma_subrange_join(data@, mark0, mark5, mark6);
            lemma_subrange_join(data@, mark0, mark6, mark7);
            lemma_subrange_join(data@, mark0, mark7, mark8);
        }
        *index = at;
        Ok(())
    }

    /// Appends the flags as version 4 has it. On failure nothing is appended.
    pub fn write_v4(&self, buffer: &mut Vec<u8>) -> (r: Result<()>)
        ensures
            match self.spec_fault_v4() {
                None => r is Ok && final(buffer)@ == old(buffer)@ + self.spec_body_v4(),
                Some(e) => r == Err::<(), RLibError>(e) && final(buffer)@ == old(buffer)@,
            },
    {
        let mut out: Vec<u8> = Vec::new();
        write_bool(&mut out, self.allow_in_outfield);
        write_bool(&mut out, self.clamp_to_water_surface);
        write_bool(&mut out, self.spring);
        write_bool(&mut out, self.summer);
        write_bool(&mut out, self.autumn);
        write_bool(&mut out, self.winter);
        write_bool(&mut out, self.visible_in_tactical_view);
        write_bool(&mut out, self.visible_in_tactical_view_only);
        assert(out@ =~= self.spec_body_v4());
        write_all(buffer, out.as_slice());
        Ok(())
    }

    /// True when the two hold the same in what version 4 writes.
    pub open spec fn spec_same_v4(&self, other: &Self) -> bool {
        self.allow_in_outfield == other.allow_in_outfield
            && self.clamp_to_water_surface == other.clamp_to_water_surface
            && self.spring == other.spring
            && self.summer == other.summer
            && self.autumn == other.autumn
            && self.winter == other.winter
            && self.visible_in_tactical_view == other.visible_in_tactical_view
            && self.visible_in_tactical_view_only == other.visible_in_tactical_view_only
    }

    /// What version 4 writes of the flags, followed by anything, tells what was written.
    pub proof fn lemma_same_v4(a: Self, b: Self, x: Seq<u8>, y: Seq<u8>)
        requires
            a.spec_fault_v4() is None,
            b.spec_fault_v4() is None,
            a.spec_body_v4() + x == b.spec_body_v4() + y,
        ensures
            a.spec_same_v4(&b),
            a.spec_body_v4() == b.spec_body_v4(),
            x == y,
    {
        let ta7 = bool_bytes(a.visible_in_tactical_view_only) + x;
        let tb7 = bool_bytes(b.visible_in_tactical_view_only) + y;
        let ta6 = bool_bytes(a.visible_in_tactical_view) + ta7;
        let tb6 = bool_bytes(b.visible_in_tactical_view) + tb7;
        let ta5 = bool_bytes(a.winter) + ta6;
        let tb5 = bool_bytes(b.winter) + tb6;
        let ta4 = bool_bytes(a.autumn) + ta5;
        let tb4 = bool_bytes(b.autumn) + tb5;
        let ta3 = bool_bytes(a.summer) + ta4;
        let tb3 = bool_bytes(b.summer) + tb4;
        let ta2 = bool_bytes(a.spring) + ta3;
        let tb2 = bool_bytes(b.spring) + tb3;
        let ta1 = bool_bytes(a.clamp_to_water_surface) + ta2;
        let tb1 = bool_bytes(b.clamp_to_water_surface) + tb2;
        let ha2 = bool_bytes(a.allow_in_outfield) + bool_bytes(a.clamp_to_water_surface);
        let hb2 = bool_bytes(b.allow_in_outfield) + bool_bytes(b.clamp_to_water_surface);
        let ha3 = ha2 + bool_bytes(a.spring);
        let hb3 = hb2 + bool_bytes(b.spring);
        let ha4 = ha3 + bool_bytes(a.summer);
        let hb4 = hb3 + bool_bytes(b.summer);
        let ha5 = ha4 + bool_bytes(a.autumn);
        let hb5 = hb4 + bool_bytes(b.autumn);
        let ha6 = ha5 + bool_bytes(a.winter);
        let hb6 = hb5 + bool_bytes(b.winter);
        let ha7 = ha6 + bool_bytes(a.visible_in_tactical_view);
        let hb7 = hb6 + bool_bytes(b.visible_in_tactical_view);
        lemma_join(ha7, bool_bytes(a.visible_in_tactical_view_only), x);
        lemma_join(hb7, bool_bytes(b.visible_in_tactical_view_only), y);
        lemma_join(ha6, bool_bytes(a.visible_in_tactical_view), ta7);
        lemma_join(hb6, bool_bytes(b.visible_in_tactical_view), tb7);
        lemma_join(ha5, bool_bytes(a.winter), ta6);
        lemma_join(hb5, bool_bytes(b.winter), tb6);
        lemma_join(ha4, bool_bytes(a.autumn), ta5);
        lemma_join(hb4, bool_bytes(b.autumn), tb5);
        lemma_join(ha3, bool_bytes(a.summer), ta4);
        lemma_join(hb3, bool_bytes(b.summer), tb4);
        lemma_join(ha2, bool_bytes(a.spring), ta3);
        lemma_join(hb2, bool_bytes(b.spring), tb3);
        lemma_join(bool_bytes(a.allow_in_outfield), bool_bytes(a.clamp_to_water_surface), ta2);
        lemma_join(bool_bytes(b.allow_in_outfield), bool_bytes(b.clamp_to_water_surface), tb2);
        lemma_bool_prefix(a.allow_in_outfield, b.allow_in_outfield, ta1, tb1);
        lemma_bool_prefix(a.clamp_to_water_surface, b.clamp_to_water_surface, ta2, tb2);
        lemma_bool_prefix(a.spring, b.spring, ta3, tb3);
        lemma_bool_prefix(a.summer, b.summer, ta4, tb4);
        lemma_bool_prefix(a.autumn, b.autumn, ta5, tb5);
        lemma_bool_prefix(a.winter, b.winter, ta6, tb6);
        lemma_bool_prefix(a.visible_in_tactical_view, b.visible_in_tactical_view, ta7, tb7);
        lemma_bool_prefix(a.visible_in_tactical_view_only, b.visible_in_tactical_view_only, x, y);
    }

    /// What version 4 writes of the flags can be read: where those bytes stand, reading ends
    /// right behind them.
    pub proof fn lemma_read_back_v4(a: Self, data: Seq<u8>, pos: int, end: int)
        requires
            a.spec_fault_v4() is None,
            stands(data, pos, end, a.spec_body_v4()),
        ensures
            Self::spec_end_v4(data, pos) == Ok::<int, RLibError>(end),
    {
        let h2 = bool_bytes(a.allow_in_outfield) + bool_bytes(a.clamp_to_water_surface);
        let h3 = h2 + bool_bytes(a.spring);
        let h4 = h3 + bool_bytes(a.summer);
        let h5 = h4 + bool_bytes(a.autumn);
        let h6 = h5 + bool_bytes(a.winter);
        let h7 = h6 + bool_bytes(a.visible_in_tactical_view);
        let m1 = after(pos, bool_bytes(a.allow_in_outfield));
        let m2 = after(pos, h2);
        let m3 = after(pos, h3);
        let m4 = after(pos, h4);
        let m5 = after(pos, h5);
        let m6 = after(pos, h6);
        let m7 = after(pos, h7);
        lemma_split(data, pos, end, h7, bool_bytes(a.visible_in_tactical_view_only));
        lemma_split(data, pos, m7, h6, bool_bytes(a.visible_in_tactical_view));
        lemma_split(data, pos, m6, h5, bool_bytes(a.winter));
        lemma_split(data, pos, m5, h4, bool_bytes(a.autumn));
        lemma_split(data, pos, m4, h3, bool_bytes(a.summer));
        lemma_split(data, pos, m3, h2, bool_bytes(a.spring));
        lemma_split(
            data,
            pos,
            m2,
            bool_bytes(a.allow_in_outfield),
            bool_bytes(a.clamp_to_water_surface),
        );
        lemma_bool_read_back(a.allow_in_outfield, data, pos, m1);
        lemma_bool_read_back(a.clamp_to_water_surface, data, m1, m2);
        lemma_bool_read_back(a.spring, data, m2, m3);
        lemma_bool_read_back(a.summer, data, m3, m4);
        lemma_bool_read_back(a.autumn, data, m4, m5);
        lemma_bool_read_back(a.winter, data, m5, m6);
        lemma_bool_read_back(a.visible_in_tactical_view, data, m6, m7);
        lemma_bool_read_back(a.visible_in_tactical_view_only, data, m7, end);
    }
}

impl Block for Flags {
    /// The bytes of the flags: the version, then what the version lays out.
    open spec fn spec_bytes(&self) -> Seq<u8> {
        u16_bytes(self.serialise_version) + (if self.serialise_version == 4 {
            self.spec_body_v4()
        } else {
            Seq::empty()
        })
    }

    /// What stands against writing the flags: a version that cannot be written, or a part
    /// that cannot.
    open spec fn spec_fault(&self) -> Option<RLibError> {
        if self.serialise_version == 4 {
            self.spec_fault_v4()
        } else {
            Some(
                RLibError::EncodingUnsupportedVersion(Entity::Flags, self.serialise_version as u32),
            )
        }
    }

    /// Where reading the flags at `pos` ends: the version must be one that can be read.
    open spec fn spec_end(data: Seq<u8>, pos: int) -> core::result::Result<int, RLibError> {
        match parse_u16(data, pos) {
            Err(e) => Err(e),
            Ok((version, next)) => if version == 4 {
                Flags::spec_end_v4(data, next)
            } else {
                Err(RLibError::DecodingUnsupportedVersion(Entity::Flags, version as u32))
            },
        }
    }

    /// True when the two are of one version and hold the same in what that version
    /// writes.
    open spec fn spec_same(&self, other: &Self) -> bool {
        self.serialise_version == other.serialise_version
            && (self.serialise_version == 4 ==> self.spec_same_v4(other))
    }

    proof fn lemma_same(a: Self, b: Self, x: Seq<u8>, y: Seq<u8>) {
        let body_a = a.spec_body_v4();
        let body_b = b.spec_body_v4();
        lemma_join(u16_bytes(a.serialise_version), body_a, x);
        lemma_join(u16_bytes(b.serialise_version), body_b, y);
        lemma_u16_prefix(a.serialise_version, b.serialise_version, body_a + x, body_b + y);
        Self::lemma_same_v4(a, b, x, y);
    }

    proof fn lemma_read_back(a: Self, data: Seq<u8>, pos: int, end: int) {
        let body = a.spec_body_v4();
        let mid = after(pos, u16_bytes(a.serialise_version));
        lemma_split(data, pos, end, u16_bytes(a.serialise_version), body);
        lemma_u16_read_back(a.serialise_version, data, pos, mid);
        Self::lemma_read_back_v4(a, data, mid, end);
    }

    fn decode(data: &[u8], index: &mut usize) -> (r: Result<Self>) {
        let mut at: usize = *index;
        let version = take_u16(data, &mut at)?;
        let mut decoded = Flags::new(version);
        let ghost body = at as int;
        match version {
            4 => decoded.read_v4(data, &mut at)?,
            _ => {
                return Err(RLibError::DecodingUnsupportedVersion(Entity::Flags, version as u32));
            },
        }
        proof {
            lemma_subrange_join(data@, *index as int, body, at as int);
        }
        *index = at;
        Ok(decoded)
    }

    fn encode(&self, buffer: &mut Vec<u8>) -> (r: Result<()>) {
        let mut out: Vec<u8> = Vec::new();
        write_u16(&mut out, self.serialise_version);
        match self.serialise_version {
            4 => self.write_v4(&mut out)?,
            _ => {
                return Err(
                    RLibError::EncodingUnsupportedVersion(
                        Entity::Flags,
                        self.serialise_version as u32,
                    ),
                );
            },
        }
        assert(out@ =~= self.spec_bytes());
        write_all(buffer, out.as_slice());
        Ok(())
    }
}

} // verus!
