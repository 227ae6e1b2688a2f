use vmboot::pte::{PageTableEntry, PteFields};

fn fields(
    ppn: u32,
    rsw: u8,
    dirty: bool,
    accessed: bool,
    global: bool,
    user: bool,
    execute: bool,
    write: bool,
    read: bool,
    valid: bool,
) -> PteFields {
    PteFields { ppn, rsw, dirty, accessed, global, user, execute, write, read, valid }
}

#[test]
fn encode_packs_fields_at_fixed_offsets() {
    // valid=bit0, read=bit1, ppn at bits 31:10.
    let e = fields(5, 0, false, false, false, false, false, false, true, true).encode();
    assert_eq!(e.bits, (5 << 10) | 0x2 | 0x1);
    assert_eq!(e.bits, 0x1403);

    // Each flag alone.
    assert_eq!(fields(0, 0, false, false, false, false, false, false, false, true).encode().bits, 0x01);
    assert_eq!(fields(0, 0, false, false, false, false, false, false, true, false).encode().bits, 0x02);
    assert_eq!(fields(0, 0, false, false, false, false, false, true, false, false).encode().bits, 0x04);
    assert_eq!(fields(0, 0, false, false, false, false, true, false, false, false).encode().bits, 0x08);
    assert_eq!(fields(0, 0, false, false, false, true, false, false, false, false).encode().bits, 0x10);
    assert_eq!(fields(0, 0, false, false, true, false, false, false, false, false).encode().bits, 0x20);
    assert_eq!(fields(0, 0, false, true, false, false, false, false, false, false).encode().bits, 0x40);
    assert_eq!(fields(0, 0, true, false, false, false, false, false, false, false).encode().bits, 0x80);
    assert_eq!(fields(0, 3, false, false, false, false, false, false, false, false).encode().bits, 0x300);
    assert_eq!(fields(0x3fffff, 0, false, false, false, false, false, false, false, false).encode().bits, 0xffff_fc00);
}

#[test]
fn decode_inverts_encode_for_all_flag_combinations() {
    for mask in 0u32..256 {
        for ppn in [0u32, 1, 0x3ff, 0x400, 0x12345, 0x3fffff] {
            for rsw in 0u8..4 {
                let f = fields(
                    ppn,
                    rsw,
                    mask & 0x80 != 0,
                    mask & 0x40 != 0,
                    mask & 0x20 != 0,
                    mask & 0x10 != 0,
                    mask & 0x08 != 0,
                    mask & 0x04 != 0,
                    mask & 0x02 != 0,
                    mask & 0x01 != 0,
                );
                assert_eq!(f.encode().decode(), f);
            }
        }
    }
}

#[test]
fn zero_entry_is_invalid_and_clear() {
    let z = PageTableEntry::zeroed();
    assert_eq!(z.bits, 0);
    assert!(!z.valid());
    assert_eq!(z.ppn(), 0);
    assert_eq!(z.decode(), PteFields::zeroed());
}

#[test]
fn field_getters_match_decode() {
    let f = fields(0x2abcd, 1, true, false, true, false, true, false, true, true);
    let e = f.encode();
    assert!(e.valid());
    assert_eq!(e.ppn(), 0x2abcd);
    let d = e.decode();
    assert_eq!(d.ppn, 0x2abcd);
    assert_eq!(d.rsw, 1);
    assert!(d.dirty && d.global && d.execute && d.read && d.valid);
    assert!(!d.accessed && !d.user && !d.write);
}
