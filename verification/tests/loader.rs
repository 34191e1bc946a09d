use rv32e_16b::loader::{elf_layout_fits, load_elf, load_image, LoadError};

fn put_u16(v: &mut Vec<u8>, off: usize, x: u16) {
    v[off..off + 2].copy_from_slice(&x.to_le_bytes());
}

fn put_u32(v: &mut Vec<u8>, off: usize, x: u32) {
    v[off..off + 4].copy_from_slice(&x.to_le_bytes());
}

/// An ELF32 file with the given (type, offset, vaddr, filesz, memsz) program
/// headers at offset 52, followed by `payload`.
fn elf(entry: u32, segments: &[(u32, u32, u32, u32, u32)], payload: &[u8]) -> Vec<u8> {
    let ph_start = 52usize;
    let mut v = vec![0u8; ph_start + 32 * segments.len()];
    v[0..4].copy_from_slice(&[0x7f, b'E', b'L', b'F']);
    v[4] = 1;
    v[5] = 1;
    put_u32(&mut v, 24, entry);
    put_u32(&mut v, 28, ph_start as u32);
    put_u16(&mut v, 42, 32);
    put_u16(&mut v, 44, segments.len() as u16);
    for (i, &(t, off, vaddr, filesz, memsz)) in segments.iter().enumerate() {
        let ph = ph_start + 32 * i;
        put_u32(&mut v, ph, t);
        put_u32(&mut v, ph + 4, off);
        put_u32(&mut v, ph + 8, vaddr);
        put_u32(&mut v, ph + 16, filesz);
        put_u32(&mut v, ph + 20, memsz);
    }
    v.extend_from_slice(payload);
    v
}

#[test]
fn elf_segment_is_copied_to_its_address() {
    let file = elf(0x10, &[(1, 84, 4, 4, 8)], &[1, 2, 3, 4]);
    assert!(elf_layout_fits(&file));
    let b = load_elf(&file).unwrap();
    assert_eq!(b.entry_point, 0x10);
    assert_eq!(b.data, vec![0, 0, 0, 0, 1, 2, 3, 4, 0, 0, 0, 0]);
}

#[test]
fn elf_later_segment_overwrites_and_non_load_is_skipped() {
    let file = elf(
        0,
        &[(1, 148, 0, 4, 4), (2, 0, 100, 0, 100), (1, 148, 2, 2, 2)],
        &[9, 8, 7, 6],
    );
    assert!(elf_layout_fits(&file));
    let b = load_elf(&file).unwrap();
    assert_eq!(b.data, vec![9, 8, 9, 8]);
}

#[test]
fn elf_header_errors() {
    assert_eq!(load_elf(&[0x7f, b'E', b'L', b'F']).err(), Some(LoadError::HeaderTooShort));
    let mut file = elf(0, &[], &[]);
    file[4] = 2;
    assert_eq!(load_elf(&file).err(), Some(LoadError::Not32Bit));
    file[4] = 1;
    file[5] = 2;
    assert_eq!(load_elf(&file).err(), Some(LoadError::NotLittleEndian));
    assert_eq!(LoadError::NotLittleEndian.message(), "not little-endian ELF");
    assert_eq!(LoadError::HeaderTooShort.message(), "ELF header too short");
    assert_eq!(LoadError::Not32Bit.message(), "not a 32-bit ELF");
}

#[test]
fn elf_without_segments_is_empty() {
    let file = elf(8, &[], &[]);
    let b = load_elf(&file).unwrap();
    assert!(b.data.is_empty());
    assert_eq!(b.entry_point, 8);
}

#[test]
fn elf_layout_fits_refuses_truncated_files() {
    // segment bytes beyond the end of the file
    let file = elf(0, &[(1, 84, 0, 10, 10)], &[1, 2]);
    assert!(!elf_layout_fits(&file));
    // file bytes larger than the image
    let file = elf(0, &[(1, 84, 0, 2, 1)], &[1, 2]);
    assert!(!elf_layout_fits(&file));
    // program header table beyond the end of the file
    let mut file = elf(0, &[], &[]);
    put_u16(&mut file, 44, 1);
    assert!(!elf_layout_fits(&file));
}

#[test]
fn flat_binary_is_its_own_image() {
    let b = load_image(&[0x93, 0x00, 0xA0]).unwrap();
    assert_eq!(b.data, vec![0x93, 0x00, 0xA0]);
    assert_eq!(b.entry_point, 0);
    let b = load_image(&[]).unwrap();
    assert!(b.data.is_empty());
}

#[test]
fn load_image_recognises_elf() {
    let file = elf(2, &[(1, 84, 0, 2, 2)], &[5, 6]);
    let b = load_image(&file).unwrap();
    assert_eq!(b.data, vec![5, 6]);
    assert_eq!(b.entry_point, 2);
    assert_eq!(load_image(&file[0..10]).err(), Some(LoadError::HeaderTooShort));
}
