use mac_amx::encode::{
    control_sequence, encode_fma, encode_xy, encode_z, Opcode, ADDR_MASK, DISABLE_WORD, ENABLE_WORD, NOP_WORD,
};

#[test]
fn xy_operand_layout() {
    assert_eq!(encode_xy(0x1234, 3, false), (3u64 << 56) | 0x1234);
    assert_eq!(encode_xy(0x1234, 3, true), (1u64 << 62) | (3u64 << 56) | 0x1234);
    assert_eq!(encode_xy(0, 7, false), 7u64 << 56);
}

#[test]
fn xy_operand_truncates_fields() {
    assert_eq!(encode_xy(0, 9, false), 1u64 << 56);
    assert_eq!(encode_xy(u64::MAX, 0, false), ADDR_MASK);
    assert_eq!(encode_xy(0xAB00_0000_0000_0010, 0, false), 0x10);
}

#[test]
fn z_operand_layout() {
    assert_eq!(encode_z(0x40, 63, false), (63u64 << 56) | 0x40);
    assert_eq!(encode_z(0x40, 60, true), (1u64 << 62) | (60u64 << 56) | 0x40);
    assert_eq!(encode_z(0x40, 64, false), 0x40);
}

#[test]
fn fma_operand_layout() {
    assert_eq!(encode_fma(0, 0, 0, false), 0);
    assert_eq!(encode_fma(1, 2, 3, true), (1u64 << 63) | (3u64 << 20) | (1u64 << 10) | 2);
    assert_eq!(encode_fma(511, 511, 63, false), (63u64 << 20) | (511u64 << 10) | 511);
}

#[test]
fn fma_operand_truncates_fields() {
    assert_eq!(encode_fma(512, 513, 64, false), 1);
    assert_eq!(encode_fma(0, 0, 65, false), 1u64 << 20);
}

#[test]
fn opcode_words() {
    assert_eq!(Opcode::Ldx.word(), 0x0020_1000);
    assert_eq!(Opcode::Ldy.word(), 0x0020_1020);
    assert_eq!(Opcode::Fma32.word(), 0x0020_1180);
    assert_eq!(Opcode::Fms16.word(), 0x0020_1200);
    assert_eq!(Opcode::Vecint.word(), 0x0020_1240);
    assert_eq!(Opcode::Genlut.word(), 0x0020_12C0);
}

#[test]
fn control_words_share_opcode() {
    assert_eq!(ENABLE_WORD, 0x0020_1220);
    assert_eq!(DISABLE_WORD, 0x0020_1221);
    assert_eq!(control_sequence(true), [NOP_WORD, NOP_WORD, NOP_WORD, 0x0020_1220]);
    assert_eq!(control_sequence(false), [NOP_WORD, NOP_WORD, NOP_WORD, 0x0020_1221]);
}

#[test]
fn fma_operand_exact_values() {
    assert_eq!(encode_fma(0, 0, 0, false), 0);
    assert_eq!(encode_fma(511, 511, 63, true), 0x8000_0000_03F7_FDFF);
    assert_eq!(encode_fma(512, 1024, 64, false), 0);
    assert_eq!(encode_fma(511, 511, 63, false) & 0x8_0200, 0);
}
