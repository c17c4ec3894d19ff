//! Point lights.

use vstd::prelude::*;

use crate::binary::{
    bool_bytes, lemma_subrange_join, parse_u16, sized_string_u8_bytes, u16_bytes, u32_bytes,
    u64_bytes, write_all, write_bool, write_sized_string_u8, write_u16, write_u32, write_u64,
    write_u8,
};
use crate::error::{Entity, RLibError, Result};
use crate::fastbin::read_back::{
    after, lemma_bool_read_back, lemma_split, lemma_text_read_back, lemma_u16_read_back,
    lemma_u32_read_back, lemma_u64_read_back, lemma_u8_read_back, stands,
};
use crate::fastbin::prefix::{
    lemma_bool_prefix, lemma_join, lemma_text_prefix, lemma_u16_prefix, lemma_u32_prefix,
    lemma_u64_prefix, lemma_u8_prefix,
};
use crate::fastbin::common::{
    bool_end, numbers_end_bytes, or_fault, take_bool, take_text, take_u16, take_u32, take_u64,
    take_u8, text_end, text_fault, Block,
};
use crate::fastbin::flags::Flags;

verus! {

/// A position in space, each coordinate a float held by its bits.
#[derive(Clone, Copy, Debug, PartialEq, Eq, Structural)]
pub struct Position {
    pub x: u32,
    pub y: u32,
    pub z: u32,
}

impl Block for Position {
    /// The bytes of a position.
    open spec fn spec_bytes(&self) -> Seq<u8> {
        u32_bytes(self.x)
            + u32_bytes(self.y)
            + u32_bytes(self.z)
    }

    /// What stands against writing a position, where anything does.
    open spec fn spec_fault(&self) -> Option<RLibError> {
        None
    }

    /// Where reading a position at `pos` ends.
    open spec fn spec_end(data: Seq<u8>, pos: int) -> core::result::Result<int, RLibError> {
        match numbers_end_bytes(data, pos, 4) {
            Err(e) => Err(e),
            Ok(mark1) => match numbers_end_bytes(data, mark1, 4) {
                Err(e) => Err(e),
                Ok(mark2) => numbers_end_bytes(data, mark2, 4),
            },
        }
    }

    /// True when the two hold the same.
    open spec fn spec_same(&self, other: &Self) -> bool {
        self.x == other.x
            && self.y == other.y
            && self.z == other.z
    }

    proof fn lemma_same(a: Self, b: Self, x: Seq<u8>, y: Seq<u8>) {
        let ta2 = u32_bytes(a.z) + x;
        let tb2 = u32_bytes(b.z) + y;
        let ta1 = u32_bytes(a.y) + ta2;
        let tb1 = u32_bytes(b.y) + tb2;
        let ha2 = u32_bytes(a.x) + u32_bytes(a.y);
        let hb2 = u32_bytes(b.x) + u32_bytes(b.y);
        lemma_join(ha2, u32_bytes(a.z), x);
        lemma_join(hb2, u32_bytes(b.z), y);
        lemma_join(u32_bytes(a.x), u32_bytes(a.y), ta2);
        lemma_join(u32_bytes(b.x), u32_bytes(b.y), tb2);
        lemma_u32_prefix(a.x, b.x, ta1, tb1);
        lemma_u32_prefix(a.y, b.y, ta2, tb2);
        lemma_u32_prefix(a.z, b.z, x, y);
    }

    proof fn lemma_read_back(a: Self, data: Seq<u8>, pos: int, end: int) {
        let h2 = u32_bytes(a.x) + u32_bytes(a.y);
        let m1 = after(pos, u32_bytes(a.x));
        let m2 = after(pos, h2);
        lemma_split(data, pos, end, h2, u32_bytes(a.z));
        lemma_split(data, pos, m2, u32_bytes(a.x), u32_bytes(a.y));
        lemma_u32_read_back(a.x, data, pos, m1);
        lemma_u32_read_back(a.y, data, m1, m2);
        lemma_u32_read_back(a.z, data, m2, end);
    }

    fn decode(data: &[u8], index: &mut usize) -> (r: Result<Self>) {
        let mut at: usize = *index;
        let ghost mark0 = at as int;
        let x = take_u32(data, &mut at)?;
        let ghost mark1 = at as int;
        let y = take_u32(data, &mut at)?;
        let ghost mark2 = at as int;
        let z = take_u32(data, &mut at)?;
        let ghost mark3 = at as int;
        let decoded = Position { x, y, z };
        proof {
            lemma_subrange_join(data@, mark0, mark1, mark2);
            lemma_subrange_join(data@, mark0, mark2, mark3);
        }
        *index = at;
        Ok(decoded)
    }

    fn encode(&self, buffer: &mut Vec<u8>) -> (r: Result<()>) {
        let mut out: Vec<u8> = Vec::new();
        write_u32(&mut out, self.x);
        write_u32(&mut out, self.y);
        write_u32(&mut out, self.z);
        assert(out@ =~= self.spec_bytes());
        write_all(buffer, out.as_slice());
        Ok(())
    }
}

/// A colour, each channel a float held by its bits.
#[derive(Clone, Copy, Debug, PartialEq, Eq, Structural)]
pub struct Colour {
    pub r: u32,
    pub g: u32,
    pub b: u32,
}

impl Block for Colour {
    /// The bytes of a colour.
    open spec fn spec_bytes(&self) -> Seq<u8> {
        u32_bytes(self.r)
            + u32_bytes(self.g)
            + u32_bytes(self.b)
    }

    /// What stands against writing a colour, where anything does.
    open spec fn spec_fault(&self) -> Option<RLibError> {
        None
    }

    /// Where reading a colour at `pos` ends.
    open spec fn spec_end(data: Seq<u8>, pos: int) -> core::result::Result<int, RLibError> {
        match numbers_end_bytes(data, pos, 4) {
            Err(e) => Err(e),
            Ok(mark1) => match numbers_end_bytes(data, mark1, 4) {
                Err(e) => Err(e),
                Ok(mark2) => numbers_end_bytes(data, mark2, 4),
            },
        }
    }

    /// True when the two hold the same.
    open spec fn spec_same(&self, other: &Self) -> bool {
        self.r == other.r
            && self.g == other.g
            && self.b == other.b
    }

    proof fn lemma_same(a: Self, b: Self, x: Seq<u8>, y: Seq<u8>) {
        let ta2 = u32_bytes(a.b) + x;
        let tb2 = u32_bytes(b.b) + y;
        let ta1 = u32_bytes(a.g) + ta2;
        let tb1 = u32_bytes(b.g) + tb2;
        let ha2 = u32_bytes(a.r) + u32_bytes(a.g);
        let hb2 = u32_bytes(b.r) + u32_bytes(b.g);
        lemma_join(ha2, u32_bytes(a.b), x);
        lemma_join(hb2, u32_bytes(b.b), y);
        lemma_join(u32_bytes(a.r), u32_bytes(a.g), ta2);
        lemma_join(u32_bytes(b.r), u32_bytes(b.g), tb2);
        lemma_u32_prefix(a.r, b.r, ta1, tb1);
        lemma_u32_prefix(a.g, b.g, ta2, tb2);
        lemma_u32_prefix(a.b, b.b, x, y);
    }

    proof fn lemma_read_back(a: Self, data: Seq<u8>, pos: int, end: int) {
        let h2 = u32_bytes(a.r) + u32_bytes(a.g);
        let m1 = after(pos, u32_bytes(a.r));
        let m2 = after(pos, h2);
        lemma_split(data, pos, end, h2, u32_bytes(a.b));
        lemma_split(data, pos, m2, u32_bytes(a.r), u32_bytes(a.g));
        lemma_u32_read_back(a.r, data, pos, m1);
        lemma_u32_read_back(a.g, data, m1, m2);
        lemma_u32_read_back(a.b, data, m2, end);
    }

    fn decode(data: &[u8], index: &mut usize) -> (r: Result<Self>) {
        let mut at: usize = *index;
        let ghost mark0 = at as int;
        let r = take_u32(data, &mut at)?;
        let ghost mark1 = at as int;
        let g = take_u32(data, &mut at)?;
        let ghost mark2 = at as int;
        let b = take_u32(data, &mut at)?;
        let ghost mark3 = at as int;
        let decoded = Colour { r, g, b };
        proof {
            lemma_subrange_join(data@, mark0, mark1, mark2);
            lemma_subrange_join(data@, mark0, mark2, mark3);
        }
        *index = at;
        Ok(decoded)
    }

    fn encode(&self, buffer: &mut Vec<u8>) -> (r: Result<()>) {
        let mut out: Vec<u8> = Vec::new();
        write_u32(&mut out, self.r);
        write_u32(&mut out, self.g);
        write_u32(&mut out, self.b);
        assert(out@ =~= self.spec_bytes());
        write_all(buffer, out.as_slice());
        Ok(())
    }
}

/// The parameters of the animation of a light, floats held by their bits.
#[derive(Clone, Copy, Debug, PartialEq, Eq, Structural)]
pub struct Params {
    pub x: u32,
    pub y: u32,
}

impl Block for Params {
    /// The bytes of the parameters.
    open spec fn spec_bytes(&self) -> Seq<u8> {
        u32_bytes(self.x)
            + u32_bytes(self.y)
    }

    /// What stands against writing the parameters, where anything does.
    open spec fn spec_fault(&self) -> Option<RLibError> {
        None
    }

    /// Where reading the parameters at `pos` ends.
    open spec fn spec_end(data: Seq<u8>, pos: int) -> core::result::Result<int, RLibError> {
        match numbers_end_bytes(data, pos, 4) {
            Err(e) => Err(e),
            Ok(mark1) => numbers_end_bytes(data, mark1, 4),
        }
    }

    /// True when the two hold the same.
    open spec fn spec_same(&self, other: &Self) -> bool {
        self.x == other.x
            && self.y == other.y
    }

    proof fn lemma_same(a: Self, b: Self, x: Seq<u8>, y: Seq<u8>) {
        let ta1 = u32_bytes(a.y) + x;
        let tb1 = u32_bytes(b.y) + y;
        lemma_join(u32_bytes(a.x), u32_bytes(a.y), x);
        lemma_join(u32_bytes(b.x), u32_bytes(b.y), y);
        lemma_u32_prefix(a.x, b.x, ta1, tb1);
        lemma_u32_prefix(a.y, b.y, x, y);
    }

    proof fn lemma_read_back(a: Self, data: Seq<u8>, pos: int, end: int) {
        let m1 = after(pos, u32_bytes(a.x));
        lemma_split(data, pos, end, u32_bytes(a.x), u32_bytes(a.y));
        lemma_u32_read_back(a.x, data, pos, m1);
        lemma_u32_read_back(a.y, data, m1, end);
    }

    fn decode(data: &[u8], index: &mut usize) -> (r: Result<Self>) {
        let mut at: usize = *index;
        let ghost mark0 = at as int;
        let x = take_u32(data, &mut at)?;
        let ghost mark1 = at as int;
        let y = take_u32(data, &mut at)?;
        let ghost mark2 = at as int;
        let decoded = Params { x, y };
        proof {
            lemma_subrange_join(data@, mark0, mark1, mark2);
        }
        *index = at;
        Ok(decoded)
    }

    fn encode(&self, buffer: &mut Vec<u8>) -> (r: Result<()>) {
        let mut out: Vec<u8> = Vec::new();
        write_u32(&mut out, self.x);
        write_u32(&mut out, self.y);
        assert(out@ =~= self.spec_bytes());
        write_all(buffer, out.as_slice());
        Ok(())
    }
}

/// A light that shines from one point.
#[derive(Debug)]
pub struct PointLight {
    pub serialise_version: u16,
    pub position: Position,
    /// A float held by its bits, as the other numbers of 32 bits here.
    pub radius: u32,
    pub colour: Colour,
    pub colour_scale: u32,
    pub animation_type: u8,
    pub colour_min: u32,
    pub random_offset: u32,
    pub params: Params,
    pub falloff_type: String,
    /// Read as a number: files hold values here that no boolean has.
    pub lf_relative: u8,
    pub height_mode: String,
    pub light_probes_only: bool,
    pub pdlc_mask: u64,
    pub flags: Flags,
}

impl PointLight {
    /// True when nothing is set: every number is zero, every switch is off, every text
    /// and every list is empty, and every part is of version 0 with nothing set.
    pub open spec fn is_blank(&self) -> bool {
        self.position == (Position { x: 0, y: 0, z: 0 })
            && self.radius == 0
            && self.colour == (Colour { r: 0, g: 0, b: 0 })
            && self.colour_scale == 0
            && self.animation_type == 0
            && self.colour_min == 0
            && self.random_offset == 0
            && self.params == (Params { x: 0, y: 0 })
            && self.falloff_type@.len() == 0
            && self.lf_relative == 0
            && self.height_mode@.len() == 0
            && !self.light_probes_only
            && self.pdlc_mask == 0
            && self.flags.serialise_version == 0
            && self.flags.is_blank()
    }

    /// The light of the given version with nothing set.
    pub fn new(serialise_version: u16) -> (r: PointLight)
        ensures
            r.serialise_version == serialise_version,
            r.is_blank(),
    {
        PointLight {
            serialise_version,
            position: Position { x: 0, y: 0, z: 0 },
            radius: 0,
            colour: Colour { r: 0, g: 0, b: 0 },
            colour_scale: 0,
            animation_type: 0,
            colour_min: 0,
            random_offset: 0,
            params: Params { x: 0, y: 0 },
            falloff_type: String::new(),
            lf_relative: 0,
            height_mode: String::new(),
            light_probes_only: false,
            pdlc_mask: 0,
            flags: Flags::new(0),
        }
    }

    /// The bytes of the light in version 7, behind the version.
    pub open spec fn spec_body_v7(&self) -> Seq<u8> {
        self.position.spec_bytes()
            + u32_bytes(self.radius)
            + self.colour.spec_bytes()
            + u32_bytes(self.colour_scale)
            + seq![self.animation_type]
            + u32_bytes(self.colour_min)
            + u32_bytes(self.random_offset)
            + self.params.spec_bytes()
            + sized_string_u8_bytes(self.falloff_type@)
            + seq![self.lf_relative]
            + sized_string_u8_bytes(self.height_mode@)
            + bool_bytes(self.light_probes_only)
            + u64_bytes(self.pdlc_mask)
            + self.flags.spec_bytes()
    }

    /// What stands against writing the light in version 7, where anything does.
    pub open spec fn spec_fault_v7(&self) -> Option<RLibError> {
        or_fault(
            self.position.spec_fault(),
            or_fault(
                self.colour.spec_fault(),
                or_fault(
                    self.params.spec_fault(),
                    or_fault(
                        text_fault(self.falloff_type@),
                        or_fault(
                            text_fault(self.height_mode@),
                            self.flags.spec_fault(),
                        ),
                    ),
                ),
            ),
        )
    }

    /// Where reading the light in version 7 ends.
    pub open spec fn spec_end_v7(data: Seq<u8>, pos: int) -> core::result::Result<int, RLibError> {
        match Position::spec_end(data, pos) {
            Err(e) => Err(e),
            Ok(mark1) => match numbers_end_bytes(data, mark1, 4) {
                Err(e) => Err(e),
                Ok(mark2) => match Colour::spec_end(data, mark2) {
                    Err(e) => Err(e),
                    Ok(mark3) => match numbers_end_bytes(data, mark3, 4) {
                        Err(e) => Err(e),
                        Ok(mark4) => match numbers_end_bytes(data, mark4, 1) {
                            Err(e) => Err(e),
                            Ok(mark5) => match numbers_end_bytes(data, mark5, 4) {
                                Err(e) => Err(e),
                                Ok(mark6) => match numbers_end_bytes(data, mark6, 4) {
                                    Err(e) => Err(e),
                                    Ok(mark7) => match Params::spec_end(data, mark7) {
                                        Err(e) => Err(e),
                                        Ok(mark8) => match text_end(data, mark8) {
                                            Err(e) => Err(e),
                                            Ok(mark9) => match numbers_end_bytes(data, mark9, 1) {
                                                Err(e) => Err(e),
                                                Ok(mark10) => match text_end(data, mark10) {
                                                    Err(e) => Err(e),
                                                    Ok(mark11) => match bool_end(data, mark11) {
                                                        Err(e) => Err(e),
                                                        Ok(mark12) => match numbers_end_bytes(data, mark12, 8) {
                                                            Err(e) => Err(e),
                                                            Ok(mark13) => Flags::spec_end(data, mark13),
                                                        },
                                                    },
                                                },
                                            },
                                        },
                                    },
                                },
                            },
                        },
                    },
                },
            },
        }
    }

    /// Reads the light as version 7 has it. On failure `self` stays as it was.
    #[verifier::rlimit(40)]
    pub fn read_v7(&mut self, data: &[u8], index: &mut usize) -> (r: Result<()>)
        ensures
            match PointLight::spec_end_v7(data@, *old(index) as int) {
                Ok(end) => r is Ok && *final(index) == end && *old(index) <= end <= data@.len()
                    && final(self).serialise_version == old(self).serialise_version
                    && final(self).spec_fault_v7() is None
                    && final(self).spec_body_v7() == data@.subrange(*old(index) as int, end),
                Err(e) => r == Err::<(), RLibError>(e) && *final(index) == *old(index)
                    && *final(self) == *old(self),
            },
    {
        let mut at: usize = *index;
        let ghost mark0 = at as int;
        let position = Position::decode(data, &mut at)?;
        let ghost mark1 = at as int;
        let radius = take_u32(data, &mut at)?;
        let ghost mark2 = at as int;
        let colour = Colour::decode(data, &mut at)?;
        let ghost mark3 = at as int;
        let colour_scale = take_u32(data, &mut at)?;
        let ghost mark4 = at as int;
        let animation_type = take_u8(data, &mut at)?;
        let ghost mark5 = at as int;
        let colour_min = take_u32(data, &mut at)?;
        let ghost mark6 = at as int;
        let random_offset = take_u32(data, &mut at)?;
        let ghost mark7 = at as int;
        let params = Params::decode(data, &mut at)?;
        let ghost mark8 = at as int;
        let falloff_type = take_text(data, &mut at)?;
        let ghost mark9 = at as int;
        let lf_relative = take_u8(data, &mut at)?;
        let ghost mark10 = at as int;
        let height_mode = take_text(data, &mut at)?;
        let ghost mark11 = at as int;
        let light_probes_only = take_bool(data, &mut at)?;
        let ghost mark12 = at as int;
        let pdlc_mask = take_u64(data, &mut at)?;
        let ghost mark13 = at as int;
        let flags = Flags::decode(data, &mut at)?;
        let ghost mark14 = at as int;
        self.position = position;
        self.radius = radius;
        self.colour = colour;
        self.colour_scale = colour_scale;
        self.animation_type = animation_type;
        self.colour_min = colour_min;
        self.random_offset = random_offset;
        self.params = params;
        self.falloff_type = falloff_type;
        self.lf_relative = lf_relative;
        self.height_mode = height_mode;
        self.light_probes_only = light_probes_only;
        self.pdlc_mask = pdlc_mask;
        self.flags = flags;
        proof {
            lemma_subrange_join(data@, mark0, mark1, mark2);
            lemma_subrange_join(data@, mark0, mark2, mark3);
            lemma_subrange_join(data@, mark0, mark3, mark4);
            lemma_subrange_join(data@, mark0, mark4, mark5);
            lemma_subrange_join(data@, mark0, mark5, mark6);
            lemma_subrange_join(data@, mark0, mark6, mark7);
            lemma_subrange_join(data@, mark0, mark7, mark8);
            lemma_subrange_join(data@, mark0, mark8, mark9);
            lemma_subrange_join(data@, mark0, mark9, mark10);
            lemma_subrange_join(data@, mark0, mark10, mark11);
            lemma_subrange_join(data@, mark0, mark11, mark12);
            lemma_subrange_join(data@, mark0, mark12, mark13);
            lemma_subrange_join(data@, mark0, mark13, mark14);
        }
        *index = at;
        Ok(())
    }

    /// Appends the light as version 7 has it. On failure nothing is appended.
    #[verifier::rlimit(40)]
    pub fn write_v7(&self, buffer: &mut Vec<u8>) -> (r: Result<()>)
        ensures
            match self.spec_fault_v7() {
                None => r is Ok && final(buffer)@ == old(buffer)@ + self.spec_body_v7(),
                Some(e) => r == Err::<(), RLibError>(e) && final(buffer)@ == old(buffer)@,
            },
    {
        let mut out: Vec<u8> = Vec::new();
        self.position.encode(&mut out)?;
        write_u32(&mut out, self.radius);
        self.colour.encode(&mut out)?;
        write_u32(&mut out, self.colour_scale);
        write_u8(&mut out, self.animation_type);
        write_u32(&mut out, self.colour_min);
        write_u32(&mut out, self.random_offset);
        self.params.encode(&mut out)?;
        write_sized_string_u8(&mut out, self.falloff_type.as_str())?;
        write_u8(&mut out, self.lf_relative);
        write_sized_string_u8(&mut out, self.height_mode.as_str())?;
        write_bool(&mut out, self.light_probes_only);
        write_u64(&mut out, self.pdlc_mask);
        self.flags.encode(&mut out)?;
        assert(out@ =~= self.spec_body_v7());
        write_all(buffer, out.as_slice());
        Ok(())
    }

    /// True when the two hold the same in what version 7 writes.
    pub open spec fn spec_same_v7(&self, other: &Self) -> bool {
        self.position.spec_same(&other.position)
            && self.radius == other.radius
            && self.colour.spec_same(&other.colour)
            && self.colour_scale == other.colour_scale
            && self.animation_type == other.animation_type
            && self.colour_min == other.colour_min
            && self.random_offset == other.random_offset
            && self.params.spec_same(&other.params)
            && self.falloff_type@ == other.falloff_type@
            && self.lf_relative == other.lf_relative
            && self.height_mode@ == other.height_mode@
            && self.light_probes_only == other.light_probes_only
            && self.pdlc_mask == other.pdlc_mask
            && self.flags.spec_same(&other.flags)
    }

    /// What version 7 writes of a light, followed by anything, tells what was written.
    pub proof fn lemma_same_v7(a: Self, b: Self, x: Seq<u8>, y: Seq<u8>)
        requires
            a.spec_fault_v7() is None,
            b.spec_fault_v7() is None,
            a.spec_body_v7() + x == b.spec_body_v7() + y,
        ensures
            a.spec_same_v7(&b),
            a.spec_body_v7() == b.spec_body_v7(),
            x == y,
    {
        let ta13 = a.flags.spec_bytes() + x;
        let tb13 = b.flags.spec_bytes() + y;
        let ta12 = u64_bytes(a.pdlc_mask) + ta13;
        let tb12 = u64_bytes(b.pdlc_mask) + tb13;
        let ta11 = bool_bytes(a.light_probes_only) + ta12;
        let tb11 = bool_bytes(b.light_probes_only) + tb12;
        let ta10 = sized_string_u8_bytes(a.height_mode@) + ta11;
        let tb10 = sized_string_u8_bytes(b.height_mode@) + tb11;
        let ta9 = seq![a.lf_relative] + ta10;
        let tb9 = seq![b.lf_relative] + tb10;
        let ta8 = sized_string_u8_bytes(a.falloff_type@) + ta9;
        let tb8 = sized_string_u8_bytes(b.falloff_type@) + tb9;
        let ta7 = a.params.spec_bytes() + ta8;
        let tb7 = b.params.spec_bytes() + tb8;
        let ta6 = u32_bytes(a.random_offset) + ta7;
        let tb6 = u32_bytes(b.random_offset) + tb7;
        let ta5 = u32_bytes(a.colour_min) + ta6;
        let tb5 = u32_bytes(b.colour_min) + tb6;
        let ta4 = seq![a.animation_type] + ta5;
        let tb4 = seq![b.animation_type] + tb5;
        let ta3 = u32_bytes(a.colour_scale) + ta4;
        let tb3 = u32_bytes(b.colour_scale) + tb4;
        let ta2 = a.colour.spec_bytes() + ta3;
        let tb2 = b.colour.spec_bytes() + tb3;
        let ta1 = u32_bytes(a.radius) + ta2;
        let tb1 = u32_bytes(b.radius) + tb2;
        let ha2 = a.position.spec_bytes() + u32_bytes(a.radius);
        let hb2 = b.position.spec_bytes() + u32_bytes(b.radius);
        let ha3 = ha2 + a.colour.spec_bytes();
        let hb3 = hb2 + b.colour.spec_bytes();
        let ha4 = ha3 + u32_bytes(a.colour_scale);
        let hb4 = hb3 + u32_bytes(b.colour_scale);
        let ha5 = ha4 + seq![a.animation_type];
        let hb5 = hb4 + seq![b.animation_type];
        let ha6 = ha5 + u32_bytes(a.colour_min);
        let hb6 = hb5 + u32_bytes(b.colour_min);
        let ha7 = ha6 + u32_bytes(a.random_offset);
        let hb7 = hb6 + u32_bytes(b.random_offset);
        let ha8 = ha7 + a.params.spec_bytes();
        let hb8 = hb7 + b.params.spec_bytes();
        let ha9 = ha8 + sized_string_u8_bytes(a.falloff_type@);
        let hb9 = hb8 + sized_string_u8_bytes(b.falloff_type@);
        let ha10 = ha9 + seq![a.lf_relative];
        let hb10 = hb9 + seq![b.lf_relative];
        let ha11 = ha10 + sized_string_u8_bytes(a.height_mode@);
        let hb11 = hb10 + sized_string_u8_bytes(b.height_mode@);
        let ha12 = ha11 + bool_bytes(a.light_probes_only);
        let hb12 = hb11 + bool_bytes(b.light_probes_only);
        let ha13 = ha12 + u64_bytes(a.pdlc_mask);
        let hb13 = hb12 + u64_bytes(b.pdlc_mask);
        lemma_join(ha13, a.flags.spec_bytes(), x);
        lemma_join(hb13, b.flags.spec_bytes(), y);
        lemma_join(ha12, u64_bytes(a.pdlc_mask), ta13);
        lemma_join(hb12, u64_bytes(b.pdlc_mask), tb13);
        lemma_join(ha11, bool_bytes(a.light_probes_only), ta12);
        lemma_join(hb11, bool_bytes(b.light_probes_only), tb12);
        lemma_join(ha10, sized_string_u8_bytes(a.height_mode@), ta11);
        lemma_join(hb10, sized_string_u8_bytes(b.height_mode@), tb11);
        lemma_join(ha9, seq![a.lf_relative], ta10);
        lemma_join(hb9, seq![b.lf_relative], tb10);
        lemma_join(ha8, sized_string_u8_bytes(a.falloff_type@), ta9);
        lemma_join(hb8, sized_string_u8_bytes(b.falloff_type@), tb9);
        lemma_join(ha7, a.params.spec_bytes(), ta8);
        lemma_join(hb7, b.params.spec_bytes(), tb8);
        lemma_join(ha6, u32_bytes(a.random_offset), ta7);
        lemma_join(hb6, u32_bytes(b.random_offset), tb7);
        lemma_join(ha5, u32_bytes(a.colour_min), ta6);
        lemma_join(hb5, u32_bytes(b.colour_min), tb6);
        lemma_join(ha4, seq![a.animation_type], ta5);
        lemma_join(hb4, seq![b.animation_type], tb5);
        lemma_join(ha3, u32_bytes(a.colour_scale), ta4);
        lemma_join(hb3, u32_bytes(b.colour_scale), tb4);
        lemma_join(ha2, a.colour.spec_bytes(), ta3);
        lemma_join(hb2, b.colour.spec_bytes(), tb3);
        lemma_join(a.position.spec_bytes(), u32_bytes(a.radius), ta2);
        lemma_join(b.position.spec_bytes(), u32_bytes(b.radius), tb2);
        Position::lemma_same(a.position, b.position, ta1, tb1);
        lemma_u32_prefix(a.radius, b.radius, ta2, tb2);
        Colour::lemma_same(a.colour, b.colour, ta3, tb3);
        lemma_u32_prefix(a.colour_scale, b.colour_scale, ta4, tb4);
        lemma_u8_prefix(a.animation_type, b.animation_type, ta5, tb5);
        lemma_u32_prefix(a.colour_min, b.colour_min, ta6, tb6);
        lemma_u32_prefix(a.random_offset, b.random_offset, ta7, tb7);
        Params::lemma_same(a.params, b.params, ta8, tb8);
        lemma_text_prefix(a.falloff_type@, b.falloff_type@, ta9, tb9);
        lemma_u8_prefix(a.lf_relative, b.lf_relative, ta10, tb10);
        lemma_text_prefix(a.height_mode@, b.height_mode@, ta11, tb11);
        lemma_bool_prefix(a.light_probes_only, b.light_probes_only, ta12, tb12);
        lemma_u64_prefix(a.pdlc_mask, b.pdlc_mask, ta13, tb13);
        Flags::lemma_same(a.flags, b.flags, x, y);
    }

    /// What version 7 writes of a light can be read: where those bytes stand, reading ends
    /// right behind them.
    pub proof fn lemma_read_back_v7(a: Self, data: Seq<u8>, pos: int, end: int)
        requires
            a.spec_fault_v7() is None,
            stands(data, pos, end, a.spec_body_v7()),
        ensures
            Self::spec_end_v7(data, pos) == Ok::<int, RLibError>(end),
    {
        let h2 = a.position.spec_bytes() + u32_bytes(a.radius);
        let h3 = h2 + a.colour.spec_bytes();
        let h4 = h3 + u32_bytes(a.colour_scale);
        let h5 = h4 + seq![a.animation_type];
        let h6 = h5 + u32_bytes(a.colour_min);
        let h7 = h6 + u32_bytes(a.random_offset);
        let h8 = h7 + a.params.spec_bytes();
        let h9 = h8 + sized_string_u8_bytes(a.falloff_type@);
        let h10 = h9 + seq![a.lf_relative];
        let h11 = h10 + sized_string_u8_bytes(a.height_mode@);
        let h12 = h11 + bool_bytes(a.light_probes_only);
        let h13 = h12 + u64_bytes(a.pdlc_mask);
        let m1 = after(pos, a.position.spec_bytes());
        let m2 = after(pos, h2);
        let m3 = after(pos, h3);
        let m4 = after(pos, h4);
        let m5 = after(pos, h5);
        let m6 = after(pos, h6);
        let m7 = after(pos, h7);
        let m8 = after(pos, h8);
        let m9 = after(pos, h9);
        let m10 = after(pos, h10);
        let m11 = after(pos, h11);
        let m12 = after(pos, h12);
        let m13 = after(pos, h13);
        lemma_split(data, pos, end, h13, a.flags.spec_bytes());
        lemma_split(data, pos, m13, h12, u64_bytes(a.pdlc_mask));
        lemma_split(data, pos, m12, h11, bool_bytes(a.light_probes_only));
        lemma_split(data, pos, m11, h10, sized_string_u8_bytes(a.height_mode@));
        lemma_split(data, pos, m10, h9, seq![a.lf_relative]);
        lemma_split(data, pos, m9, h8, sized_string_u8_bytes(a.falloff_type@));
        lemma_split(data, pos, m8, h7, a.params.spec_bytes());
        lemma_split(data, pos, m7, h6, u32_bytes(a.random_offset));
        lemma_split(data, pos, m6, h5, u32_bytes(a.colour_min));
        lemma_split(data, pos, m5, h4, seq![a.animation_type]);
        lemma_split(data, pos, m4, h3, u32_bytes(a.colour_scale));
        lemma_split(data, pos, m3, h2, a.colour.spec_bytes());
        lemma_split(data, pos, m2, a.position.spec_bytes(), u32_bytes(a.radius));
        Position::lemma_read_back(a.position, data, pos, m1);
        lemma_u32_read_back(a.radius, data, m1, m2);
        Colour::lemma_read_back(a.colour, data, m2, m3);
        lemma_u32_read_back(a.colour_scale, data, m3, m4);
        lemma_u8_read_back(a.animation_type, data, m4, m5);
        lemma_u32_read_back(a.colour_min, data, m5, m6);
        lemma_u32_read_back(a.random_offset, data, m6, m7);
        Params::lemma_read_back(a.params, data, m7, m8);
        lemma_text_read_back(a.falloff_type@, data, m8, m9);
        lemma_u8_read_back(a.lf_relative, data, m9, m10);
        lemma_text_read_back(a.height_mode@, data, m10, m11);
        lemma_bool_read_back(a.light_probes_only, data, m11, m12);
        lemma_u64_read_back(a.pdlc_mask, data, m12, m13);
        Flags::lemma_read_back(a.flags, data, m13, end);
    }
}

impl Block for PointLight {
    /// The bytes of the light: the version, then what the version lays out.
    open spec fn spec_bytes(&self) -> Seq<u8> {
        u16_bytes(self.serialise_version) + (if self.serialise_version == 7 {
            self.spec_body_v7()
        } else {
            Seq::empty()
        })
    }

    /// What stands against writing the light: a version that cannot be written, or a part
    /// that cannot.
    open spec fn spec_fault(&self) -> Option<RLibError> {
        if self.serialise_version == 7 {
            self.spec_fault_v7()
        } else {
            Some(
                RLibError::EncodingUnsupportedVersion(
                    Entity::PointLight,
                    self.serialise_version as u32,
                ),
            )
        }
    }

    /// Where reading the light at `pos` ends: the version must be one that can be read.
    open spec fn spec_end(data: Seq<u8>, pos: int) -> core::result::Result<int, RLibError> {
        match parse_u16(data, pos) {
            Err(e) => Err(e),
            Ok((version, next)) => if version == 7 {
                PointLight::spec_end_v7(data, next)
            } else {
                Err(RLibError::DecodingUnsupportedVersion(Entity::PointLight, version as u32))
            },
        }
    }

    /// True when the two are of one version and hold the same in what that version
    /// writes.
    open spec fn spec_same(&self, other: &Self) -> bool {
        self.serialise_version == other.serialise_version
            && (self.serialise_version == 7 ==> self.spec_same_v7(other))
    }

    proof fn lemma_same(a: Self, b: Self, x: Seq<u8>, y: Seq<u8>) {
        let body_a = a.spec_body_v7();
        let body_b = b.spec_body_v7();
        lemma_join(u16_bytes(a.serialise_version), body_a, x);
        lemma_join(u16_bytes(b.serialise_version), body_b, y);
        lemma_u16_prefix(a.serialise_version, b.serialise_version, body_a + x, body_b + y);
        Self::lemma_same_v7(a, b, x, y);
    }

    proof fn lemma_read_back(a: Self, data: Seq<u8>, pos: int, end: int) {
        let body = a.spec_body_v7();
        let mid = after(pos, u16_bytes(a.serialise_version));
        lemma_split(data, pos, end, u16_bytes(a.serialise_version), body);
        lemma_u16_read_back(a.serialise_version, data, pos, mid);
        Self::lemma_read_back_v7(a, data, mid, end);
    }

    fn decode(data: &[u8], index: &mut usize) -> (r: Result<Self>) {
        let mut at: usize = *index;
        let version = take_u16(data, &mut at)?;
        let mut decoded = PointLight::new(version);
        let ghost body = at as int;
        match version {
            7 => decoded.read_v7(data, &mut at)?,
            _ => {
                return Err(
                    RLibError::DecodingUnsupportedVersion(Entity::PointLight, version as u32),
                );
            },
        }
        proof {
            lemma_subrange_join(data@, *index as int, body, at as int);
        }
        *index = at;
        Ok(decoded)
    }

    fn encode(&self, buffer: &mut Vec<u8>) -> (r: Result<()>) {
        let mut out: Vec<u8> = Vec::new();
        write_u16(&mut out, self.serialise_version);
        match self.serialise_version {
            7 => self.write_v7(&mut out)?,
            _ => {
                return Err(
                    RLibError::EncodingUnsupportedVersion(
                        Entity::PointLight,
                        self.serialise_version as u32,
                    ),
                );
            },
        }
        assert(out@ =~= self.spec_bytes());
        write_all(buffer, out.as_slice());
        Ok(())
    }
}

/// The point lights of a battlefield.
#[derive(Debug)]
pub struct PointLightList {
    pub serialise_version: u16,
    pub point_lights: Vec<PointLight>,
}

impl PointLightList {
    /// True when nothing is set: every number is zero, every switch is off, every text
    /// and every list is empty, and every part is of version 0 with nothing set.
    pub open spec fn is_blank(&self) -> bool {
        self.point_lights@.len() == 0
    }

    /// The list of lights of the given version with nothing set.
    pub fn new(serialise_version: u16) -> (r: PointLightList)
        ensures
            r.serialise_version == serialise_version,
            r.is_blank(),
    {
        PointLightList {
            serialise_version,
            point_lights: Vec::new(),
        }
    }

    /// The bytes of the list of lights in version 1, behind the version.
    pub open spec fn spec_body_v1(&self) -> Seq<u8> {
        self.point_lights.spec_bytes()
    }

    /// What stands against writing the list of lights in version 1, where anything does.
    pub open spec fn spec_fault_v1(&self) -> Option<RLibError> {
        self.point_lights.spec_fault()
    }

    /// Where reading the list of lights in version 1 ends.
    pub open spec fn spec_end_v1(data: Seq<u8>, pos: int) -> core::result::Result<int, RLibError> {
        <Vec<PointLight>>::spec_end(data, pos)
    }

    /// Reads the list of lights as version 1 has it. On failure `self` stays as it was.
    pub fn read_v1(&mut self, data: &[u8], index: &mut usize) -> (r: Result<()>)
        ensures
            match PointLightList::spec_end_v1(data@, *old(index) as int) {
                Ok(end) => r is Ok && *final(index) == end && *old(index) <= end <= data@.len()
                    && final(self).serialise_version == old(self).serialise_version
                    && final(self).spec_fault_v1() is None
                    && final(self).spec_body_v1() == data@.subrange(*old(index) as int, end),
                Err(e) => r == Err::<(), RLibError>(e) && *final(index) == *old(index)
                    && *final(self) == *old(self),
            },
    {
        let mut at: usize = *index;
        let ghost mark0 = at as int;
        let point_lights = <Vec<PointLight>>::decode(data, &mut at)?;
        let ghost mark1 = at as int;
        self.point_lights = point_lights;
        *index = at;
        Ok(())
    }

    /// Appends the list of lights as version 1 has it. On failure nothing is appended.
    pub fn write_v1(&self, buffer: &mut Vec<u8>) -> (r: Result<()>)
        ensures
            match self.spec_fault_v1() {
                None => r is Ok && final(buffer)@ == old(buffer)@ + self.spec_body_v1(),
                Some(e) => r == Err::<(), RLibError>(e) && final(buffer)@ == old(buffer)@,
            },
    {
        let mut out: Vec<u8> = Vec::new();
        self.point_lights.encode(&mut out)?;
        assert(out@ =~= self.spec_body_v1());
        write_all(buffer, out.as_slice());
        Ok(())
    }

    /// True when the two hold the same in what version 1 writes.
    pub open spec fn spec_same_v1(&self, other: &Self) -> bool {
        self.point_lights.spec_same(&other.point_lights)
    }

    /// What version 1 writes of a list of lights, followed by anything, tells what was written.
    pub proof fn lemma_same_v1(a: Self, b: Self, x: Seq<u8>, y: Seq<u8>)
        requires
            a.spec_fault_v1() is None,
            b.spec_fault_v1() is None,
            a.spec_body_v1() + x == b.spec_body_v1() + y,
        ensures
            a.spec_same_v1(&b),
            a.spec_body_v1() == b.spec_body_v1(),
            x == y,
    {
        Vec::<PointLight>::lemma_same(a.point_lights, b.point_lights, x, y);
    }

    /// What version 1 writes of a list of lights can be read: where those bytes stand, reading ends
    /// right behind them.
    pub proof fn lemma_read_back_v1(a: Self, data: Seq<u8>, pos: int, end: int)
        requires
            a.spec_fault_v1() is None,
            stands(data, pos, end, a.spec_body_v1()),
        ensures
            Self::spec_end_v1(data, pos) == Ok::<int, RLibError>(end),
    {
        Vec::<PointLight>::lemma_read_back(a.point_lights, data, pos, end);
    }
}

impl Block for PointLightList {
    /// The bytes of the list of lights: the version, then what the version lays out.
    open spec fn spec_bytes(&self) -> Seq<u8> {
        u16_bytes(self.serialise_version) + (if self.serialise_version == 1 {
            self.spec_body_v1()
        } else {
            Seq::empty()
        })
    }

    /// What stands against writing the list of lights: a version that cannot be written, or a part
    /// that cannot.
    open spec fn spec_fault(&self) -> Option<RLibError> {
        if self.serialise_version == 1 {
            self.spec_fault_v1()
        } else {
            Some(
                RLibError::EncodingUnsupportedVersion(
                    Entity::PointLightList,
                    self.serialise_version as u32,
                ),
            )
        }
    }

    /// Where reading the list of lights at `pos` ends: the version must be one that can be read.
    open spec fn spec_end(data: Seq<u8>, pos: int) -> core::result::Result<int, RLibError> {
        match parse_u16(data, pos) {
            Err(e) => Err(e),
            Ok((version, next)) => if version == 1 {
                PointLightList::spec_end_v1(data, next)
            } else {
                Err(RLibError::DecodingUnsupportedVersion(Entity::PointLightList, version as u32))
            },
        }
    }

    /// True when the two are of one version and hold the same in what that version
    /// writes.
    open spec fn spec_same(&self, other: &Self) -> bool {
        self.serialise_version == other.serialise_version
            && (self.serialise_version == 1 ==> self.spec_same_v1(other))
    }

    proof fn lemma_same(a: Self, b: Self, x: Seq<u8>, y: Seq<u8>) {
        let body_a = a.spec_body_v1();
        let body_b = b.spec_body_v1();
        lemma_join(u16_bytes(a.serialise_version), body_a, x);
        lemma_join(u16_bytes(b.serialise_version), body_b, y);
        lemma_u16_prefix(a.serialise_version, b.serialise_version, body_a + x, body_b + y);
        Self::lemma_same_v1(a, b, x, y);
    }

    proof fn lemma_read_back(a: Self, data: Seq<u8>, pos: int, end: int) {
        let body = a.spec_body_v1();
        let mid = after(pos, u16_bytes(a.serialise_version));
        lemma_split(data, pos, end, u16_bytes(a.serialise_version), body);
        lemma_u16_read_back(a.serialise_version, data, pos, mid);
        Self::lemma_read_back_v1(a, data, mid, end);
    }

    fn decode(data: &[u8], index: &mut usize) -> (r: Result<Self>) {
        let mut at: usize = *index;
        let version = take_u16(data, &mut at)?;
        let mut decoded = PointLightList::new(version);
        let ghost body = at as int;
        match version {
            1 => decoded.read_v1(data, &mut at)?,
            _ => {
                return Err(
                    RLibError::DecodingUnsupportedVersion(Entity::PointLightList, version as u32),
                );
            },
        }
        proof {
            lemma_subrange_join(data@, *index as int, body, at as int);
        }
        *index = at;
        Ok(decoded)
    }

    fn encode(&self, buffer: &mut Vec<u8>) -> (r: Result<()>) {
        let mut out: Vec<u8> = Vec::new();
        write_u16(&mut out, self.serialise_version);
        match self.serialise_version {
            1 => self.write_v1(&mut out)?,
            _ => {
                return Err(
                    RLibError::EncodingUnsupportedVersion(
                        Entity::PointLightList,
                        self.serialise_version as u32,
                    ),
                );
            },
        }
        assert(out@ =~= self.spec_bytes());
        write_all(buffer, out.as_slice());
        Ok(())
    }
}

} // verus!
