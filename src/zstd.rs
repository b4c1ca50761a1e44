use vstd::prelude::*;

verus! {

/// The four bytes that open every Zstandard frame (0xFD2FB528, little endian).
pub const ZSTD_MAGIC_BYTES: [u8; 4] = [0x28, 0xB5, 0x2F, 0xFD];

/// True when `header` starts with the Zstandard frame magic.
pub open spec fn has_zstd_magic(header: Seq<u8>) -> bool {
    header.len() >= 4 && header[0] == 0x28u8 && header[1] == 0xB5u8 && header[2] == 0x2Fu8
        && header[3] == 0xFDu8
}

/// Reports whether the peeked header begins a Zstandard frame. Never consumes bytes.
pub fn is_zstd(header: &[u8]) -> (r: bool)
    ensures
        r == has_zstd_magic(header@),
{
    header.len() >= 4 && header[0] == ZSTD_MAGIC_BYTES[0] && header[1] == ZSTD_MAGIC_BYTES[1]
        && header[2] == ZSTD_MAGIC_BYTES[2] && header[3] == ZSTD_MAGIC_BYTES[3]
}

} // verus!
