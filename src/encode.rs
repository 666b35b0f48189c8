//! Instruction words and register operands of the matrix coprocessor.
//!
//! Every coprocessor instruction is one 32-bit word `OP_BASE + (opcode << 5)`; the
//! low five bits name the general-purpose register that carries the 64-bit operand
//! (always `x0` here). The operand packs small typed fields; each field is cut to its
//! width before packing, so out-of-range fields are truncated, never rejected.

use vstd::prelude::*;

verus! {

/// Base of every coprocessor instruction word.
pub const OP_BASE: u32 = 0x0020_1000;

/// The AArch64 `nop` instruction word.
pub const NOP_WORD: u32 = 0xD503_201F;

/// Opcode shared by enable and disable; the low bit of the word tells them apart.
pub const OPCODE_CONTROL: u32 = 17;

pub const LDX_WORD: u32 = OP_BASE + 0 * 32;
pub const LDY_WORD: u32 = OP_BASE + 1 * 32;
pub const STX_WORD: u32 = OP_BASE + 2 * 32;
pub const STY_WORD: u32 = OP_BASE + 3 * 32;
pub const LDZ_WORD: u32 = OP_BASE + 4 * 32;
pub const STZ_WORD: u32 = OP_BASE + 5 * 32;
pub const LDZI_WORD: u32 = OP_BASE + 6 * 32;
pub const STZI_WORD: u32 = OP_BASE + 7 * 32;
pub const EXTRX_WORD: u32 = OP_BASE + 8 * 32;
pub const EXTRY_WORD: u32 = OP_BASE + 9 * 32;
pub const FMA64_WORD: u32 = OP_BASE + 10 * 32;
pub const FMS64_WORD: u32 = OP_BASE + 11 * 32;
pub const FMA32_WORD: u32 = OP_BASE + 12 * 32;
pub const FMS32_WORD: u32 = OP_BASE + 13 * 32;
pub const MAC16_WORD: u32 = OP_BASE + 14 * 32;
pub const FMA16_WORD: u32 = OP_BASE + 15 * 32;
pub const FMS16_WORD: u32 = OP_BASE + 16 * 32;
pub const VECINT_WORD: u32 = OP_BASE + 18 * 32;
pub const VECFP_WORD: u32 = OP_BASE + 19 * 32;
pub const MATINT_WORD: u32 = OP_BASE + 20 * 32;
pub const MATFP_WORD: u32 = OP_BASE + 21 * 32;
pub const GENLUT_WORD: u32 = OP_BASE + 22 * 32;
pub const ENABLE_WORD: u32 = OP_BASE + 17 * 32;
pub const DISABLE_WORD: u32 = OP_BASE + 17 * 32 + 1;

/// Mask of the address field of a load/store operand.
pub const ADDR_MASK: u64 = 0x00FF_FFFF_FFFF_FFFF;

/// The operations of the coprocessor that take a register operand.
#[derive(Clone, Copy, Debug, PartialEq, Eq, Structural)]
pub enum Opcode {
    Ldx,
    Ldy,
    Stx,
    Sty,
    Ldz,
    Stz,
    Ldzi,
    Stzi,
    Extrx,
    Extry,
    Fma64,
    Fms64,
    Fma32,
    Fms32,
    Mac16,
    Fma16,
    Fms16,
    Vecint,
    Vecfp,
    Matint,
    Matfp,
    Genlut,
}

impl Opcode {
    /// The vendor's opcode number of the operation.
    pub open spec fn number(self) -> nat {
        match self {
            Opcode::Ldx => 0,
            Opcode::Ldy => 1,
            Opcode::Stx => 2,
            Opcode::Sty => 3,
            Opcode::Ldz => 4,
            Opcode::Stz => 5,
            Opcode::Ldzi => 6,
            Opcode::Stzi => 7,
            Opcode::Extrx => 8,
            Opcode::Extry => 9,
            Opcode::Fma64 => 10,
            Opcode::Fms64 => 11,
            Opcode::Fma32 => 12,
            Opcode::Fms32 => 13,
            Opcode::Mac16 => 14,
            Opcode::Fma16 => 15,
            Opcode::Fms16 => 16,
            Opcode::Vecint => 18,
            Opcode::Vecfp => 19,
            Opcode::Matint => 20,
            Opcode::Matfp => 21,
            Opcode::Genlut => 22,
        }
    }

    /// The instruction word that issues this operation with its operand in `x0`.
    pub fn word(self) -> (r: u32)
        ensures
            r == OP_BASE + self.number() * 32,
    {
        match self {
            Opcode::Ldx => LDX_WORD,
            Opcode::Ldy => LDY_WORD,
            Opcode::Stx => STX_WORD,
            Opcode::Sty => STY_WORD,
            Opcode::Ldz => LDZ_WORD,
            Opcode::Stz => STZ_WORD,
            Opcode::Ldzi => LDZI_WORD,
            Opcode::Stzi => STZI_WORD,
            Opcode::Extrx => EXTRX_WORD,
            Opcode::Extry => EXTRY_WORD,
            Opcode::Fma64 => FMA64_WORD,
            Opcode::Fms64 => FMS64_WORD,
            Opcode::Fma32 => FMA32_WORD,
            Opcode::Fms32 => FMS32_WORD,
            Opcode::Mac16 => MAC16_WORD,
            Opcode::Fma16 => FMA16_WORD,
            Opcode::Fms16 => FMS16_WORD,
            Opcode::Vecint => VECINT_WORD,
            Opcode::Vecfp => VECFP_WORD,
            Opcode::Matint => MATINT_WORD,
            Opcode::Matfp => MATFP_WORD,
            Opcode::Genlut => GENLUT_WORD,
        }
    }
}

/// The instruction sequence that enables (`enable == true`) or disables the
/// coprocessor: three `nop`s for pipeline safety, then the control word, whose low
/// bit is set for disable.
pub fn control_sequence(enable: bool) -> (r: [u32; 4])
    ensures
        r@ == seq![NOP_WORD, NOP_WORD, NOP_WORD, (OP_BASE + OPCODE_CONTROL * 32 + (if enable { 0int } else { 1int })) as u32],
{
    let word = if enable { ENABLE_WORD } else { DISABLE_WORD };
    let r = [NOP_WORD, NOP_WORD, NOP_WORD, word];
    assert(r@ =~= seq![NOP_WORD, NOP_WORD, NOP_WORD, word]);
    r
}

/// Operand of a load or store between memory and an X or Y register: address in
/// bits 0..56, register index in bits 56..59, pair flag in bit 62.
pub fn encode_xy(addr: u64, reg: u64, pair: bool) -> (r: u64)
    ensures
        r % 0x0100_0000_0000_0000 == addr % 0x0100_0000_0000_0000,
        (r >> 56) % 8 == reg % 8,
        (r >> 59) % 8 == 0,
        r >> 62 == (if pair { 1u64 } else { 0u64 }),
{
    let p: u64 = if pair { 1 } else { 0 };
    let r = (p << 62) | ((reg & 0x7) << 56) | (addr & ADDR_MASK);
    assert(r % 0x0100_0000_0000_0000 == addr % 0x0100_0000_0000_0000
        && (r >> 56) % 8 == reg % 8
        && (r >> 59) % 8 == 0
        && r >> 62 == p) by (bit_vector)
        requires
            p <= 1,
            r == (p << 62) | ((reg & 0x7) << 56) | (addr & 0x00FF_FFFF_FFFF_FFFF),
    ;
    r
}

/// Operand of a load or store between memory and a Z row: address in bits 0..56,
/// row in bits 56..62, pair flag in bit 62.
pub fn encode_z(addr: u64, row: u64, pair: bool) -> (r: u64)
    ensures
        r % 0x0100_0000_0000_0000 == addr % 0x0100_0000_0000_0000,
        (r >> 56) % 64 == row % 64,
        r >> 62 == (if pair { 1u64 } else { 0u64 }),
{
    let p: u64 = if pair { 1 } else { 0 };
    let r = (p << 62) | ((row & 0x3F) << 56) | (addr & ADDR_MASK);
    assert(r % 0x0100_0000_0000_0000 == addr % 0x0100_0000_0000_0000
        && (r >> 56) % 64 == row % 64
        && r >> 62 == p) by (bit_vector)
        requires
            p <= 1,
            r == (p << 62) | ((row & 0x3F) << 56) | (addr & 0x00FF_FFFF_FFFF_FFFF),
    ;
    r
}

/// Operand of a multiply-accumulate: Y byte offset in bits 0..9, X byte offset in
/// bits 10..19, Z row in bits 20..26, vector-mode flag in bit 63; every other bit
/// (9, 19 and 26..63) is clear.
pub fn encode_fma(x_off: u64, y_off: u64, z_row: u64, vector_mode: bool) -> (r: u64)
    ensures
        r % 512 == y_off % 512,
        (r >> 9) % 2 == 0,
        (r >> 10) % 512 == x_off % 512,
        (r >> 19) % 2 == 0,
        (r >> 20) % 64 == z_row % 64,
        (r >> 26) % 0x20_0000_0000 == 0,
        r >> 63 == (if vector_mode { 1u64 } else { 0u64 }),
{
    let v: u64 = if vector_mode { 1 } else { 0 };
    let r = (v << 63) | ((z_row & 0x3F) << 20) | ((x_off & 0x1FF) << 10) | (y_off & 0x1FF);
    assert(r % 512 == y_off % 512
        && (r >> 9) % 2 == 0
        && (r >> 10) % 512 == x_off % 512
        && (r >> 19) % 2 == 0
        && (r >> 20) % 64 == z_row % 64
        && (r >> 26) % 0x20_0000_0000 == 0
        && r >> 63 == v) by (bit_vector)
        requires
            v <= 1,
            r == (v << 63) | ((z_row & 0x3F) << 20) | ((x_off & 0x1FF) << 10) | (y_off & 0x1FF),
    ;
    r
}

} // verus!
