use expr_jit::buffer::{AllocError, Asm, Elf};

#[test]
fn an_empty_buffer_cannot_be_loaded() {
    assert_eq!(Asm::new().prepare(), Err(AllocError::EmptyBuffer));
    let mut code = Asm::new();
    code.put(&[]);
    assert_eq!(code.prepare(), Err(AllocError::EmptyBuffer));
}

#[test]
fn a_buffer_asks_for_its_length() {
    let mut code = Asm::new();
    code.put(&[
        0x48, 0xB9, 0xFF, 0xFF, 0xFF, 0xFF, 0xFF, 0xFF, 0xFF, 0x7F, 0x48, 0x89, 0xC8, 0xC3,
    ]);
    assert_eq!(code.prepare(), Ok(14));
    code.put(&[0x90]);
    assert_eq!(code.prepare(), Ok(15));
}

#[test]
fn a_mapping_is_recorded() {
    let elf = Elf::mapped(0x7000_0000, 14).unwrap();
    assert_eq!(elf.len(), 14);
    assert_eq!(elf.addr(), 0x7000_0000);
}

#[test]
fn a_failed_mapping_is_an_error() {
    assert_eq!(Elf::mapped(0, 14), Err(AllocError::MapFailed));
    assert_eq!(Elf::mapped(usize::MAX, 14), Err(AllocError::MapFailed));
    assert_eq!(Elf::mapped(0x7000_0000, 0), Err(AllocError::EmptyBuffer));
    assert_eq!(Elf::mapped(0, 0), Err(AllocError::EmptyBuffer));
}
