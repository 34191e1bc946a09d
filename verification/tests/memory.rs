use rv32e_16b::memory::Memory;

#[test]
fn round_trip_16() {
    let mut mem = Memory::new(16);
    mem.store16(3, 0xABCD);
    assert_eq!(mem.load16(3), 0xABCD);
}

#[test]
fn round_trip_32() {
    let mut mem = Memory::new(16);
    mem.store32(4, 0xDEAD_BEEF);
    assert_eq!(mem.load32(4), 0xDEAD_BEEF);
    assert_eq!(mem.load16(4), 0xBEEF);
    assert_eq!(mem.load16(5), 0xDEAD);
}

#[test]
fn store_changes_only_its_cells() {
    let mut mem = Memory::new(8);
    mem.store32(2, 0xFFFF_FFFF);
    mem.store16(5, 7);
    assert_eq!(mem.load16(1), 0);
    assert_eq!(mem.load16(4), 0);
    assert_eq!(mem.load16(5), 7);
    assert_eq!(mem.load32(2), 0xFFFF_FFFF);
    assert_eq!(mem.len(), 8);
}

#[test]
fn unaligned_word_access() {
    let mut mem = Memory::new(8);
    mem.store32(3, 0x0102_0304);
    assert_eq!(mem.load32(3), 0x0102_0304);
    assert_eq!(mem.load32(2), 0x0304_0000);
}
