use rv32e_16b::registers::RegisterFile;

#[test]
fn registers_x0_always_zero() {
    let mut rf = RegisterFile::new();
    rf.write(0, 42);
    assert_eq!(rf.read(0), 0);
}

#[test]
fn read_write() {
    let mut rf = RegisterFile::new();
    rf.write(5, 0xCAFE);
    assert_eq!(rf.read(5), 0xCAFE);
}

#[test]
fn write_leaves_other_registers() {
    let mut rf = RegisterFile::new();
    rf.write(15, 1);
    rf.write(14, 2);
    rf.write(15, 3);
    let all = rf.dump();
    assert_eq!(all[15], 3);
    assert_eq!(all[14], 2);
    assert_eq!(all[0], 0);
    assert_eq!(all.iter().filter(|&&v| v != 0).count(), 2);
}
