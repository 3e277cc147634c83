//! The fixed fields by which the header of a 64-bit ELF file is recognised.

use vstd::prelude::*;

verus! {

/// The size in bytes of a 64-bit ELF header, which such a header declares
/// of itself.
pub const ELF64_HEADER_SIZE: u16 = 64;

/// Why a header was not accepted.
#[derive(Clone, Copy, Debug, PartialEq, Eq, Structural)]
pub enum HeaderError {
    /// The identification does not begin with 0x7f, 'E', 'L', 'F'.
    BadMagic,
    /// The header declares a size other than that of a 64-bit ELF header.
    SizeMismatch { expected: u16, got: u16 },
}

/// The four bytes that every ELF file begins with.
pub open spec fn magic() -> Seq<u8> {
    seq![0x7fu8, 0x45u8, 0x4cu8, 0x46u8]
}

/// `ident` begins with the ELF magic number.
pub open spec fn starts_with_magic(ident: Seq<u8>) -> bool {
    ident.len() >= 4 && ident.subrange(0, 4) == magic()
}

/// What the check of a header's identification and declared size says: the
/// magic number is looked at first, the size after it.
pub open spec fn verdict(ident: Seq<u8>, declared_size: u16) -> Result<(), HeaderError> {
    if !starts_with_magic(ident) {
        Err(HeaderError::BadMagic)
    } else if declared_size != ELF64_HEADER_SIZE {
        Err(HeaderError::SizeMismatch { expected: ELF64_HEADER_SIZE, got: declared_size })
    } else {
        Ok(())
    }
}

/// Whether `ident` begins with the ELF magic number.
pub fn has_magic(ident: &[u8]) -> (r: bool)
    ensures
        r == starts_with_magic(ident@),
{
    let r = ident.len() >= 4 && ident[0] == 0x7f && ident[1] == 0x45 && ident[2] == 0x4c
        && ident[3] == 0x46;
    proof {
        if r {
            assert(ident@.subrange(0, 4) =~= magic());
        } else if ident@.len() >= 4 {
            let head = ident@.subrange(0, 4);
            assert(head[0] == ident@[0] && head[1] == ident@[1] && head[2] == ident@[2] && head[3]
                == ident@[3]);
            assert(magic()[0] == 0x7f && magic()[1] == 0x45 && magic()[2] == 0x4c && magic()[3]
                == 0x46);
        }
    }
    r
}

/// Checks the identification bytes and the declared header size of a 64-bit
/// ELF header.
pub fn check_header(ident: &[u8], declared_size: u16) -> (res: Result<(), HeaderError>)
    ensures
        res == verdict(ident@, declared_size),
{
    if !has_magic(ident) {
        Err(HeaderError::BadMagic)
    } else if declared_size != ELF64_HEADER_SIZE {
        Err(HeaderError::SizeMismatch { expected: ELF64_HEADER_SIZE, got: declared_size })
    } else {
        Ok(())
    }
}

} // verus!
