//! Decryption of the encrypted parts of a pack. Each function depends on its arguments
//! alone. Nothing here encrypts: encrypted packs are read, never written.

use vstd::prelude::*;

verus! {

/// The key that the sizes and timestamps of an encrypted index are masked with.
pub const INDEX_U32_KEY: u32 = 0xE10B_73F4;

/// The key that the blocks of encrypted data are masked with.
pub const DATA_KEY: u64 = 0x8FEB_2A67_40A6_920E;

/// The number of bytes of the key that the paths of an encrypted index are masked with.
pub const INDEX_STRING_KEY_LEN: usize = 64;

/// The bytes of the key that the paths of an encrypted index are masked with.
pub open spec fn index_string_key() -> Seq<u8> {
    seq![
        0x23u8, 0x3A, 0x41, 0x68, 0x70, 0x70, 0x64, 0x56, 0x2D, 0x21, 0x50, 0x45, 0x66, 0x7A, 0x26,
        0x7D, 0x5B, 0x5D, 0x4E, 0x76, 0x3F, 0x36, 0x77, 0x34, 0x67, 0x75, 0x55, 0x25, 0x64, 0x46,
        0x35, 0x2E, 0x66, 0x71, 0x3A, 0x6E, 0x2A, 0x2D, 0x71, 0x47, 0x75, 0x68, 0x42, 0x4A, 0x4A,
        0x42, 0x6D, 0x26, 0x3F, 0x32, 0x74, 0x50, 0x79, 0x21, 0x67, 0x65, 0x57, 0x2F, 0x2B, 0x6B,
        0x23, 0x70, 0x47, 0x3F,
    ]
}

/// The key byte for position `i` of a path.
pub open spec fn index_string_key_at(i: int) -> u8 {
    index_string_key()[i % 64]
}

/// The plain size or timestamp of an index entry, from the stored value and the number of
/// entries that follow the entry in the index.
pub open spec fn decrypted_u32(value: u32, entries_after: u32) -> u32 {
    !entries_after ^ value ^ INDEX_U32_KEY
}

/// The plain byte at position `i` of a path, from the stored byte and the low byte of the
/// entry's plain size.
pub open spec fn decrypted_path_byte(byte: u8, size_key: u8, i: int) -> u8 {
    byte ^ !size_key ^ index_string_key_at(i)
}

/// The number of bytes of the encrypted path that starts at `pos`, its terminator
/// included: the first position whose plain byte is zero ends it. Where no byte decrypts
/// to zero, the path runs to the end of the buffer.
pub open spec fn encrypted_path_len(data: Seq<u8>, pos: int, size_key: u8, i: int) -> int
    decreases data.len() - pos - i,
{
    if pos < 0 || i < 0 || pos + i >= data.len() {
        i
    } else if decrypted_path_byte(data[pos + i], size_key, i) == 0 {
        i + 1
    } else {
        encrypted_path_len(data, pos, size_key, i + 1)
    }
}

/// The number of bytes of the encrypted path that starts at `pos`, its terminator left
/// out.
pub open spec fn encrypted_path_text_len(data: Seq<u8>, pos: int, size_key: u8, i: int) -> int
    decreases data.len() - pos - i,
{
    if pos < 0 || i < 0 || pos + i >= data.len() {
        i
    } else if decrypted_path_byte(data[pos + i], size_key, i) == 0 {
        i
    } else {
        encrypted_path_text_len(data, pos, size_key, i + 1)
    }
}

/// The plain bytes of the encrypted path that starts at `pos`.
pub open spec fn decrypted_path(data: Seq<u8>, pos: int, size_key: u8) -> Seq<u8> {
    Seq::new(
        encrypted_path_text_len(data, pos, size_key, 0) as nat,
        |i: int| decrypted_path_byte(data[pos + i], size_key, i),
    )
}

/// The mask of the 8-byte block of data that starts at the byte offset `offset`. Offsets
/// count within 32 bits.
pub open spec fn data_block_mask(offset: u32) -> u64 {
    DATA_KEY.wrapping_mul((!offset) as u64)
}

/// The plain byte at position `i` of encrypted data.
pub open spec fn decrypted_data_byte(data: Seq<u8>, i: int) -> u8 {
    data[i] ^ ((data_block_mask(((i / 8) * 8 % 0x1_0000_0000) as u32) >> (((i % 8) * 8) as u64))
        & 0xFF) as u8
}

/// The plain form of encrypted data.
pub open spec fn decrypted_data(data: Seq<u8>) -> Seq<u8> {
    Seq::new(data.len(), |i: int| decrypted_data_byte(data, i))
}

/// Decrypts the size or the timestamp of an index entry.
pub fn decrypt_index_item_file_length(value: u32, entries_after: u32) -> (r: u32)
    ensures
        r == decrypted_u32(value, entries_after),
{
    !entries_after ^ value ^ INDEX_U32_KEY
}

/// The key byte for position `i` of a path.
fn key_byte(i: usize) -> (r: u8)
    ensures
        r == index_string_key_at(i as int),
{
    let key: [u8; 64] = [
        0x23, 0x3A, 0x41, 0x68, 0x70, 0x70, 0x64, 0x56, 0x2D, 0x21, 0x50, 0x45, 0x66, 0x7A, 0x26,
        0x7D, 0x5B, 0x5D, 0x4E, 0x76, 0x3F, 0x36, 0x77, 0x34, 0x67, 0x75, 0x55, 0x25, 0x64, 0x46,
        0x35, 0x2E, 0x66, 0x71, 0x3A, 0x6E, 0x2A, 0x2D, 0x71, 0x47, 0x75, 0x68, 0x42, 0x4A, 0x4A,
        0x42, 0x6D, 0x26, 0x3F, 0x32, 0x74, 0x50, 0x79, 0x21, 0x67, 0x65, 0x57, 0x2F, 0x2B, 0x6B,
        0x23, 0x70, 0x47, 0x3F,
    ];
    assert(key@ =~= index_string_key());
    key[i % 64]
}

/// Decrypts the path of an index entry, which starts at `*index`: the bytes up to the
/// first one that decrypts to zero. The cursor moves behind that byte, or to the end of the
/// buffer where there is none.
pub fn decrypt_index_item_filename(data: &[u8], size_key: u8, index: &mut usize) -> (r: Vec<u8>)
    ensures
        r@ == decrypted_path(data@, *old(index) as int, size_key),
        *final(index) == *old(index) + encrypted_path_len(data@, *old(index) as int, size_key, 0),
        *old(index) <= data@.len() ==> *final(index) <= data@.len(),
{
    let start: usize = *index;
    let n: usize = data.len();
    let mut out: Vec<u8> = Vec::new();
    if start > n {
        assert(out@ =~= decrypted_path(data@, start as int, size_key));
        return out;
    }
    let mut i: usize = 0;
    while start + i < n
        invariant
            start <= n == data@.len(),
            start + i <= n,
            start == *old(index),
            out@.len() == i,
            encrypted_path_len(data@, start as int, size_key, 0) == encrypted_path_len(
                data@,
                start as int,
                size_key,
                i as int,
            ),
            encrypted_path_text_len(data@, start as int, size_key, 0) == encrypted_path_text_len(
                data@,
                start as int,
                size_key,
                i as int,
            ),
            forall|j: int|
                0 <= j < i ==> out@[j] == decrypted_path_byte(
                    #[trigger] data@[start + j],
                    size_key,
                    j,
                ),
        decreases n - start - i,
    {
        let b: u8 = data[start + i] ^ !size_key ^ key_byte(i);
        if b == 0 {
            *index = start + i + 1;
            assert(out@ =~= decrypted_path(data@, start as int, size_key));
            return out;
        }
        out.push(b);
        i = i + 1;
    }
    *index = start + i;
    assert(out@ =~= decrypted_path(data@, start as int, size_key));
    out
}

/// Decrypts the data of an entry. The result has the length of the input.
pub fn decrypt_packed_file(data: &[u8]) -> (r: Vec<u8>)
    ensures
        r@ == decrypted_data(data@),
{
    let n: usize = data.len();
    let mut out: Vec<u8> = Vec::new();
    let mut i: usize = 0;
    while i < n
        invariant
            i <= n == data@.len(),
            out@.len() == i,
            forall|j: int| 0 <= j < i ==> out@[j] == decrypted_data_byte(data@, j),
        decreases n - i,
    {
        let offset: u32 = (((i / 8) * 8) as u64 % 0x1_0000_0000) as u32;
        let mask: u64 = DATA_KEY.wrapping_mul((!offset) as u64);
        let shift: u64 = ((i % 8) * 8) as u64;
        let b: u8 = data[i] ^ ((mask >> shift) & 0xFF) as u8;
        out.push(b);
        i = i + 1;
    }
    assert(out@ =~= decrypted_data(data@));
    out
}

} // verus!
