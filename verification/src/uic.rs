//! UI components: binary files that describe the user interface of the games. Only their
//! header is understood.

use vstd::prelude::*;
use vstd::slice::slice_subrange;

use crate::binary::{parse_string_u8, read_string_u8, u32_bytes, write_u32};
use crate::error::{RLibError, Result};
use crate::pack::file_type::FileType;
use crate::text::{bytes_eq, decimal_to_u32, parse_unsigned_in};

verus! {

/// The text that a UI component starts with.
pub const SIGNATURE: &'static str = "Version";

/// The number of characters of the version that follows the signature.
pub const VERSION_SIZE: usize = 3;

/// The number of bytes of the header of a UI component.
pub const HEADER_SIZE: usize = 10;

/// The extension of the files that hold a UI component as text.
pub const EXTENSION: &'static str = ".cml";

/// The bytes of the signature.
pub open spec fn signature_bytes() -> Seq<u8> {
    seq![0x56u8, 0x65, 0x72, 0x73, 0x69, 0x6F, 0x6E]
}

/// A UI component, decoded.
#[derive(Clone, Copy, Debug, Default, PartialEq, Eq, Structural)]
pub struct UIC {
    pub version: u32,
}

/// The version that the header of a UI component gives: behind a signature of seven bytes
/// of text, three characters that form a decimal number.
pub open spec fn parse_uic_header(data: Seq<u8>) -> core::result::Result<u32, RLibError> {
    match parse_string_u8(data, 0, 7) {
        Err(e) => Err(e),
        Ok(_) => match parse_string_u8(data, 7, 3) {
            Err(e) => Err(e),
            Ok((text, _)) => match parse_unsigned_in(text, u32::MAX as int) {
                Some(v) => Ok(v as u32),
                None => Err(RLibError::DecodingNumberError),
            },
        },
    }
}

impl UIC {
    /// Tells whether the data starts like a UI component: with the signature.
    pub fn is_ui_component(data: &[u8]) -> (r: bool)
        ensures
            r == (data@.len() >= 7 && data@.subrange(0, 7) == signature_bytes()),
    {
        if data.len() < 7 {
            return false;
        }
        let head = slice_subrange(data, 0, 7);
        let signature: [u8; 7] = [0x56, 0x65, 0x72, 0x73, 0x69, 0x6F, 0x6E];
        assert(signature@ =~= signature_bytes());
        bytes_eq(head, signature.as_slice())
    }

    /// Reads the header of a UI component and gives its version.
    pub fn read_header(packed_file_data: &[u8]) -> (r: Result<u32>)
        ensures
            r == parse_uic_header(packed_file_data@),
    {
        let mut at: usize = 0;
        match read_string_u8(packed_file_data, &mut at, 7) {
            Ok(_) => {},
            Err(e) => {
                return Err(e);
            },
        }
        let text = match read_string_u8(packed_file_data, &mut at, VERSION_SIZE) {
            Ok(text) => text,
            Err(e) => {
                return Err(e);
            },
        };
        match decimal_to_u32(text.as_str()) {
            Some(v) => Ok(v),
            None => Err(RLibError::DecodingNumberError),
        }
    }

    /// The kind of file that holds UI components.
    pub fn file_type(&self) -> (r: FileType)
        ensures
            r == FileType::UIC,
    {
        FileType::UIC
    }

    /// Decodes a UI component.
    pub fn decode(packed_file_data: &[u8]) -> (r: Result<UIC>)
        ensures
            match parse_uic_header(packed_file_data@) {
                Ok(version) => r == Ok::<UIC, RLibError>(UIC { version }),
                Err(e) => r == Err::<UIC, RLibError>(e),
            },
    {
        match UIC::read_header(packed_file_data) {
            Ok(version) => Ok(UIC { version }),
            Err(e) => Err(e),
        }
    }

    /// Encodes a UI component: the signature, then the version as a 32-bit number.
    pub fn encode(&self) -> (r: Vec<u8>)
        ensures
            r@ == signature_bytes() + u32_bytes(self.version),
    {
        let mut data: Vec<u8> = Vec::new();
        let signature: [u8; 7] = [0x56, 0x65, 0x72, 0x73, 0x69, 0x6F, 0x6E];
        crate::binary::write_all(&mut data, signature.as_slice());
        write_u32(&mut data, self.version);
        assert(data@ =~= signature_bytes() + u32_bytes(self.version));
        data
    }
}

} // verus!
