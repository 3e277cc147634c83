use arena::elf::{check_header, has_magic, HeaderError, ELF64_HEADER_SIZE};

fn ident() -> [u8; 16] {
    [0x7f, 0x45, 0x4c, 0x46, 2, 1, 1, 0, 0, 0, 0, 0, 0, 0, 0, 0]
}

#[test]
fn well_formed_header_is_accepted() {
    assert_eq!(ELF64_HEADER_SIZE, 64);
    assert_eq!(check_header(&ident(), 64), Ok(()));
    assert_eq!(check_header(&[0x7f, 0x45, 0x4c, 0x46], 64), Ok(()));
}

#[test]
fn wrong_magic_is_rejected() {
    for i in 0..4 {
        let mut bytes = ident();
        bytes[i] ^= 1;
        assert!(!has_magic(&bytes));
        assert_eq!(check_header(&bytes, 64), Err(HeaderError::BadMagic));
    }
    assert_eq!(check_header(&[0u8; 16], 64), Err(HeaderError::BadMagic));
    assert_eq!(check_header(&[], 64), Err(HeaderError::BadMagic));
    assert_eq!(check_header(&[0x7f, 0x45, 0x4c], 64), Err(HeaderError::BadMagic));
}

#[test]
fn magic_is_checked_before_the_size() {
    assert_eq!(check_header(&[0u8; 16], 52), Err(HeaderError::BadMagic));
}

#[test]
fn wrong_declared_size_is_rejected() {
    for got in [0u16, 52, 63, 65, u16::MAX] {
        assert_eq!(
            check_header(&ident(), got),
            Err(HeaderError::SizeMismatch { expected: 64, got })
        );
    }
}

#[test]
fn magic_is_only_looked_for_at_the_start() {
    assert!(has_magic(&ident()));
    assert!(!has_magic(&[0, 0x7f, 0x45, 0x4c, 0x46]));
    assert!(has_magic(&[0x7f, 0x45, 0x4c, 0x46, 0xff]));
}
