use binbased_tracing::elf::new;
use binbased_tracing::error::ElfError;

#[test]
fn test_new_error_is_not_an_elf_file() {
    let data = b"This is not ELF!";
    let result = new(&data[..]);
    assert!(matches!(result, Err(ElfError::NotAnElfFile)));
}

#[test]
fn test_new_with_empty_file() {
    let data: Vec<u8> = vec![];
    let result = new(&data);
    assert!(result.is_err());
}
