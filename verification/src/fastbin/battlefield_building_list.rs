//! The buildings of a battlefield.

use vstd::prelude::*;

use crate::binary::{lemma_subrange_join, parse_u16, u16_bytes, write_all, write_u16};
use crate::error::{Entity, RLibError, Result};
use crate::fastbin::read_back::{after, lemma_split, lemma_u16_read_back, stands};
use crate::fastbin::prefix::{lemma_join, lemma_u16_prefix};
use crate::fastbin::common::{take_u16, Block};
use crate::fastbin::building::Building;

verus! {

/// The buildings of a battlefield.
#[derive(Debug)]
pub struct BattlefieldBuildingList {
    pub serialise_version: u16,
    pub buildings: Vec<Building>,
}

impl BattlefieldBuildingList {
    /// True when nothing is set: every number is zero, every switch is off, every text
    /// and every list is empty, and every part is of version 0 with nothing set.
    pub open spec fn is_blank(&self) -> bool {
        self.buildings@.len() == 0
    }

    /// The list of buildings of the given version with nothing set.
    pub fn new(serialise_version: u16) -> (r: BattlefieldBuildingList)
        ensures
            r.serialise_version == serialise_version,
            r.is_blank(),
    {
        BattlefieldBuildingList {
            serialise_version,
            buildings: Vec::new(),
        }
    }

    /// The bytes of the list of buildings in version 1, behind the version.
    pub open spec fn spec_body_v1(&self) -> Seq<u8> {
        self.buildings.spec_bytes()
    }

    /// What stands against writing the list of buildings in version 1, where anything does.
    pub open spec fn spec_fault_v1(&self) -> Option<RLibError> {
        self.buildings.spec_fault()
    }

    /// Where reading the list of buildings in version 1 ends.
    pub open spec fn spec_end_v1(data: Seq<u8>, pos: int) -> core::result::Result<int, RLibError> {
        <Vec<Building>>::spec_end(data, pos)
    }

    /// Reads the list of buildings as version 1 has it. On failure `self` stays as it was.
    pub fn read_v1(&mut self, data: &[u8], index: &mut usize) -> (r: Result<()>)
        ensures
            match BattlefieldBuildingList::spec_end_v1(data@, *old(index) as int) {
                Ok(end) => r is Ok && *final(index) == end && *old(index) <= end <= data@.len()
                    && final(self).serialise_version == old(self).serialise_version
                    && final(self).spec_fault_v1() is None
                    && final(self).spec_body_v1() == data@.subrange(*old(index) as int, end),
                Err(e) => r == Err::<(), RLibError>(e) && *final(index) == *old(index)
                    && *final(self) == *old(self),
            },
    {
        let mut at: usize = *index;
        let ghost mark0 = at as int;
        let buildings = <Vec<Building>>::decode(data, &mut at)?;
        let ghost mark1 = at as int;
        self.buildings = buildings;
        *index = at;
        Ok(())
    }

    /// Appends the list of buildings as version 1 has it. On failure nothing is appended.
    pub fn write_v1(&self, buffer: &mut Vec<u8>) -> (r: Result<()>)
        ensures
            match self.spec_fault_v1() {
                None => r is Ok && final(buffer)@ == old(buffer)@ + self.spec_body_v1(),
                Some(e) => r == Err::<(), RLibError>(e) && final(buffer)@ == old(buffer)@,
            },
    {
        let mut out: Vec<u8> = Vec::new();
        self.buildings.encode(&mut out)?;
        assert(out@ =~= self.spec_body_v1());
        write_all(buffer, out.as_slice());
        Ok(())
    }

    /// True when the two hold the same in what version 1 writes.
    pub open spec fn spec_same_v1(&self, other: &Self) -> bool {
        self.buildings.spec_same(&other.buildings)
    }

    /// What version 1 writes of a list of buildings, followed by anything, tells what was written.
    pub proof fn lemma_same_v1(a: Self, b: Self, x: Seq<u8>, y: Seq<u8>)
        requires
            a.spec_fault_v1() is None,
            b.spec_fault_v1() is None,
            a.spec_body_v1() + x == b.spec_body_v1() + y,
        ensures
            a.spec_same_v1(&b),
            a.spec_body_v1() == b.spec_body_v1(),
            x == y,
    {
        Vec::<Building>::lemma_same(a.buildings, b.buildings, x, y);
    }

    /// What version 1 writes of a list of buildings can be read: where those bytes stand, reading ends
    /// right behind them.
    pub proof fn lemma_read_back_v1(a: Self, data: Seq<u8>, pos: int, end: int)
        requires
            a.spec_fault_v1() is None,
            stands(data, pos, end, a.spec_body_v1()),
        ensures
            Self::spec_end_v1(data, pos) == Ok::<int, RLibError>(end),
    {
        Vec::<Building>::lemma_read_back(a.buildings, data, pos, end);
    }
}

impl Block for BattlefieldBuildingList {
    /// The bytes of the list of buildings: the version, then what the version lays out.
    open spec fn spec_bytes(&self) -> Seq<u8> {
        u16_bytes(self.serialise_version) + (if self.serialise_version == 1 {
            self.spec_body_v1()
        } else {
            Seq::empty()
        })
    }

    /// What stands against writing the list of buildings: a version that cannot be written, or a
    /// part that cannot.
    open spec fn spec_fault(&self) -> Option<RLibError> {
        if self.serialise_version == 1 {
            self.spec_fault_v1()
        } else {
            Some(
                RLibError::EncodingUnsupportedVersion(
                    Entity::BattlefieldBuildingList,
                    self.serialise_version as u32,
                ),
            )
        }
    }

    /// Where reading the list of buildings at `pos` ends: the version must be one that can be read.
    open spec fn spec_end(data: Seq<u8>, pos: int) -> core::result::Result<int, RLibError> {
        match parse_u16(data, pos) {
            Err(e) => Err(e),
            Ok((version, next)) => if version == 1 {
                BattlefieldBuildingList::spec_end_v1(data, next)
            } else {
                Err(
                    RLibError::DecodingUnsupportedVersion(
                        Entity::BattlefieldBuildingList,
                        version as u32,
                    ),
                )
            },
        }
    }

    /// True when the two are of one version and hold the same in what that version
    /// writes.
    open spec fn spec_same(&self, other: &Self) -> bool {
        self.serialise_version == other.serialise_version
            && (self.serialise_version == 1 ==> self.spec_same_v1(other))
    }

    proof fn lemma_same(a: Self, b: Self, x: Seq<u8>, y: Seq<u8>) {
        let body_a = a.spec_body_v1();
        let body_b = b.spec_body_v1();
        lemma_join(u16_bytes(a.serialise_version), body_a, x);
        lemma_join(u16_bytes(b.serialise_version), body_b, y);
        lemma_u16_prefix(a.serialise_version, b.serialise_version, body_a + x, body_b + y);
        Self::lemma_same_v1(a, b, x, y);
    }

    proof fn lemma_read_back(a: Self, data: Seq<u8>, pos: int, end: int) {
        let body = a.spec_body_v1();
        let mid = after(pos, u16_bytes(a.serialise_version));
        lemma_split(data, pos, end, u16_bytes(a.serialise_version), body);
        lemma_u16_read_back(a.serialise_version, data, pos, mid);
        Self::lemma_read_back_v1(a, data, mid, end);
    }

    fn decode(data: &[u8], index: &mut usize) -> (r: Result<Self>) {
        let mut at: usize = *index;
        let version = take_u16(data, &mut at)?;
        let mut decoded = BattlefieldBuildingList::new(version);
        let ghost body = at as int;
        match version {
            1 => decoded.read_v1(data, &mut at)?,
            _ => {
                return Err(
                    RLibError::DecodingUnsupportedVersion(
                        Entity::BattlefieldBuildingList,
                        version as u32,
                    ),
                );
            },
        }
        proof {
            lemma_subrange_join(data@, *index as int, body, at as int);
        }
        *index = at;
        Ok(decoded)
    }

    fn encode(&self, buffer: &mut Vec<u8>) -> (r: Result<()>) {
        let mut out: Vec<u8> = Vec::new();
        write_u16(&mut out, self.serialise_version);
        match self.serialise_version {
            1 => self.write_v1(&mut out)?,
            _ => {
                return Err(
                    RLibError::EncodingUnsupportedVersion(
                        Entity::BattlefieldBuildingList,
                        self.serialise_version as u32,
                    ),
                );
            },
        }
        assert(out@ =~= self.spec_bytes());
        write_all(buffer, out.as_slice());
        Ok(())
    }
}

} // verus!
