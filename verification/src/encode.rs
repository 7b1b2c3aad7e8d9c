//! Per-mnemonic encoders: each turns a parsed instruction into its 16-bit
//! opcode word and, for immediate and absolute forms, one extension word.
//! An instruction whose operands fit no supported pattern encodes to
//! nothing.

use vstd::prelude::*;

use crate::arith::{i8_low_byte, low_byte_u16, sext8_16, sgn32, signed32, extend8_16};
use crate::instruction::{InstrView, SourceInstr};
use crate::labels::{lookup, table_lookup, table_view, LabelsView};
use crate::syntax::{
    addr_reg_spec, data_reg_spec, imm_addr_spec, imm_i8_spec, imm_u16_spec, indirect_reg_spec,
    lemma_parts_view, mnemonic_of, mnemonic_tag, parse_address_register, parse_data_register,
    parse_immediate, parse_immediate_address, parse_immediate_u16, parse_indirect_register,
    Mnemonic,
};
use crate::text::{parse_int, parse_signed8, sub_bytes, HASH, MINUS, PLUS};

verus! {

/// A branch displacement operand: a label, whose distance from the end of
/// the branch word must fit in a signed byte, or a literal offset written
/// with an explicit sign.
pub open spec fn branch_disp_spec(labels: LabelsView, op: Seq<u8>, address: u32) -> Option<int> {
    let direct: Option<int> = if op.len() > 0 && (op[0] == PLUS || op[0] == MINUS) {
        parse_int(op, false, -128, 127)
    } else {
        None
    };
    match lookup(labels, op) {
        Some(target) => {
            let d = sgn32(target) - sgn32(address) - 2;
            if -128 <= d <= 127 {
                Some(d)
            } else {
                direct
            }
        },
        None => direct,
    }
}

/// Parse a branch displacement operand against the label table.
pub fn parse_branch_displacement(labels: &Vec<(Vec<u8>, u32)>, op: &[u8], address: u32) -> (r:
    Option<i8>)
    ensures
        match branch_disp_spec(table_view(labels@), op@, address) {
            Some(v) => r == Some(v as i8),
            None => r is None,
        },
{
    match table_lookup(labels, op) {
        Some(target) => {
            let d = signed32(target) - signed32(address) - 2;
            if -128 <= d && d <= 127 {
                return Some(d as i8);
            }
        },
        None => {},
    }
    if op.len() > 0 && (op[0] == PLUS || op[0] == MINUS) {
        parse_signed8(op, false)
    } else {
        None
    }
}

/// `MOVEQ #imm, Dn`: `0111 RRR0` and the sign-extended immediate byte.
pub open spec fn enc_moveq(inst: InstrView) -> Option<(u16, Option<u16>)> {
    if inst.operands.len() != 2 {
        None
    } else {
        match imm_i8_spec(inst.operands[0]) {
            Some(v) => match data_reg_spec(inst.operands[1]) {
                Some(reg) => Some(
                    (0x7000 | ((reg as u16) << 9) | low_byte_u16(v as i8), None::<u16>),
                ),
                None => None,
            },
            None => None,
        }
    }
}

/// The `MOVE` family. In order: an immediate source into a data register
/// (extension word), address-register indirect into a data register, a
/// data register into address-register indirect, register to register,
/// a label source into a data register (extension word holds the label's
/// low address half), and a data register stored to a label.
pub open spec fn enc_move(labels: LabelsView, inst: InstrView) -> Option<(u16, Option<u16>)> {
    if inst.operands.len() != 2 {
        None
    } else {
        let src = inst.operands[0];
        let dst = inst.operands[1];
        if src.len() > 0 && src[0] == HASH && data_reg_spec(dst) is Some && imm_u16_spec(
            src,
        ) is Some {
            let d = data_reg_spec(dst)->Some_0;
            let v = imm_u16_spec(src)->Some_0;
            Some((0x21FC | ((d as u16) << 9), Some(v as u16)))
        } else if indirect_reg_spec(src) is Some && data_reg_spec(dst) is Some {
            let a = indirect_reg_spec(src)->Some_0;
            let d = data_reg_spec(dst)->Some_0;
            Some((0x2010 | ((d as u16) << 9) | (a as u16), None::<u16>))
        } else if data_reg_spec(src) is Some && indirect_reg_spec(dst) is Some {
            let r = data_reg_spec(src)->Some_0;
            let a = indirect_reg_spec(dst)->Some_0;
            Some((0x2080 | ((a as u16) << 9) | (r as u16), None::<u16>))
        } else if data_reg_spec(src) is Some && data_reg_spec(dst) is Some {
            let s = data_reg_spec(src)->Some_0;
            let d = data_reg_spec(dst)->Some_0;
            Some((0x3000 | ((d as u16) << 9) | (s as u16), None::<u16>))
        } else if data_reg_spec(dst) is Some && lookup(labels, src) is Some {
            let d = data_reg_spec(dst)->Some_0;
            let a = lookup(labels, src)->Some_0;
            Some((0x2078 | ((d as u16) << 9), Some((a % 0x10000) as u16)))
        } else if data_reg_spec(src) is Some && lookup(labels, dst) is Some {
            let r = data_reg_spec(src)->Some_0;
            let a = lookup(labels, dst)->Some_0;
            Some((0x23C0 | (r as u16), Some((a % 0x10000) as u16)))
        } else {
            None
        }
    }
}

/// `MOVEA.L #label, An`: the label's address travels in the extension word.
pub open spec fn enc_movea(labels: LabelsView, inst: InstrView) -> Option<(u16, Option<u16>)> {
    if inst.operands.len() != 2 {
        None
    } else {
        let src = inst.operands[0];
        let dst = inst.operands[1];
        if src.len() > 0 && src[0] == HASH && addr_reg_spec(dst) is Some && lookup(
            labels,
            src.drop_first(),
        ) is Some {
            let a = addr_reg_spec(dst)->Some_0;
            let t = lookup(labels, src.drop_first())->Some_0;
            Some((0x207C | ((a as u16) << 9), Some((t % 0x10000) as u16)))
        } else {
            None
        }
    }
}

/// `MULS`: an immediate source takes an extension word, a register source
/// encodes in the opcode's low bits.
pub open spec fn enc_muls(inst: InstrView) -> Option<(u16, Option<u16>)> {
    if inst.operands.len() != 2 {
        None
    } else {
        let src = inst.operands[0];
        let dst = inst.operands[1];
        match data_reg_spec(dst) {
            Some(d) => {
                if src.len() > 0 && src[0] == HASH {
                    match imm_u16_spec(src) {
                        Some(v) => Some((0xC1FC | ((d as u16) << 9), Some(v as u16))),
                        None => None,
                    }
                } else {
                    match data_reg_spec(src) {
                        Some(s) => Some((0xC1C0 | ((d as u16) << 9) | (s as u16), None::<u16>)),
                        None => None,
                    }
                }
            },
            None => None,
        }
    }
}

/// A conditional branch: condition nibble and signed displacement byte.
pub open spec fn enc_branch(labels: LabelsView, inst: InstrView, condition: u16) -> Option<
    (u16, Option<u16>),
> {
    if inst.operands.len() == 0 {
        None
    } else {
        match branch_disp_spec(labels, inst.operands[0], inst.address) {
            Some(d) => Some((0x6000 | (condition << 8) | low_byte_u16(d as i8), None::<u16>)),
            None => None,
        }
    }
}

/// `ADD Dx, Dy`.
pub open spec fn enc_add(inst: InstrView) -> Option<(u16, Option<u16>)> {
    if inst.operands.len() != 2 {
        None
    } else {
        match (data_reg_spec(inst.operands[0]), data_reg_spec(inst.operands[1])) {
            (Some(s), Some(d)) => Some((0xD040 | ((d as u16) << 9) | (s as u16), None::<u16>)),
            _ => None,
        }
    }
}

/// `SUB Dx, Dy`.
pub open spec fn enc_sub(inst: InstrView) -> Option<(u16, Option<u16>)> {
    if inst.operands.len() != 2 {
        None
    } else {
        match (data_reg_spec(inst.operands[0]), data_reg_spec(inst.operands[1])) {
            (Some(s), Some(d)) => Some((0x9040 | ((d as u16) << 9) | (s as u16), None::<u16>)),
            _ => None,
        }
    }
}

/// `CMP`: an immediate source becomes `CMPI` with an extension word, a
/// register source compares two data registers.
pub open spec fn enc_cmp(inst: InstrView) -> Option<(u16, Option<u16>)> {
    if inst.operands.len() != 2 {
        None
    } else {
        let src = inst.operands[0];
        if src.len() > 0 && src[0] == HASH {
            match (imm_u16_spec(src), data_reg_spec(inst.operands[1])) {
                (Some(v), Some(d)) => Some((0x0C80 | (d as u16), Some(v as u16))),
                _ => None,
            }
        } else {
            match (data_reg_spec(src), data_reg_spec(inst.operands[1])) {
                (Some(s), Some(d)) => Some((0xB040 | ((d as u16) << 9) | (s as u16), None::<u16>)),
                _ => None,
            }
        }
    }
}

/// `JMP`/`JUMP` to an absolute address: a fixed opcode word; the target
/// is read from memory behind the opcode at run time, not emitted here.
pub open spec fn enc_jump(labels: LabelsView, inst: InstrView) -> Option<(u16, Option<u16>)> {
    if inst.operands.len() != 1 {
        None
    } else if imm_addr_spec(labels, inst.operands[0]) is Some {
        Some((0x4EF8, None::<u16>))
    } else {
        None
    }
}

/// `TST Dn`.
pub open spec fn enc_tst(inst: InstrView) -> Option<(u16, Option<u16>)> {
    if inst.operands.len() != 1 {
        None
    } else {
        match data_reg_spec(inst.operands[0]) {
            Some(reg) => Some((0x4A80 | (reg as u16), None::<u16>)),
            None => None,
        }
    }
}

/// `SUBQ.L #imm, Dn`: three immediate bits, 8 written as 0.
pub open spec fn enc_subq(inst: InstrView) -> Option<(u16, Option<u16>)> {
    if inst.operands.len() != 2 {
        None
    } else {
        match (imm_i8_spec(inst.operands[0]), data_reg_spec(inst.operands[1])) {
            (Some(v), Some(reg)) => {
                let imm = sext8_16(v as i8);
                let data = if imm == 8 {
                    0
                } else {
                    imm & 0x7
                };
                Some((0x5180 | (data << 9) | (reg as u16), None::<u16>))
            },
            _ => None,
        }
    }
}

/// `ASL.L #imm, Dn`: three shift-count bits, 8 written as 0.
pub open spec fn enc_asl(inst: InstrView) -> Option<(u16, Option<u16>)> {
    if inst.operands.len() != 2 {
        None
    } else {
        match (imm_i8_spec(inst.operands[0]), data_reg_spec(inst.operands[1])) {
            (Some(v), Some(reg)) => {
                let count = sext8_16(v as i8);
                let data = if count == 8 {
                    0
                } else {
                    count & 0x7
                };
                Some((0xE180 | (data << 9) | (reg as u16), None::<u16>))
            },
            _ => None,
        }
    }
}

/// `DBRA Dn, label`: the displacement must resolve but is not emitted in
/// this simplified one-word form.
pub open spec fn enc_dbra(labels: LabelsView, inst: InstrView) -> Option<(u16, Option<u16>)> {
    if inst.operands.len() != 2 {
        None
    } else {
        match data_reg_spec(inst.operands[0]) {
            Some(reg) => {
                if branch_disp_spec(labels, inst.operands[1], inst.address) is Some {
                    Some((0x51C8 | (reg as u16), None::<u16>))
                } else {
                    None
                }
            },
            None => None,
        }
    }
}

/// The encoder for one instruction against the finished label table: the
/// opcode word and the extension word when the form carries one, or
/// nothing when the mnemonic is unknown or no operand pattern matches.
pub open spec fn encode_spec(labels: LabelsView, inst: InstrView) -> Option<(u16, Option<u16>)> {
    match mnemonic_of(inst.mnemonic) {
        Mnemonic::Moveq => enc_moveq(inst),
        Mnemonic::Move => enc_move(labels, inst),
        Mnemonic::Movea => enc_movea(labels, inst),
        Mnemonic::Muls => enc_muls(inst),
        Mnemonic::Tst => enc_tst(inst),
        Mnemonic::Subq => enc_subq(inst),
        Mnemonic::Asl => enc_asl(inst),
        Mnemonic::Dbra => enc_dbra(labels, inst),
        Mnemonic::Bra => enc_branch(labels, inst, 0x0),
        Mnemonic::Beq => enc_branch(labels, inst, 0x7),
        Mnemonic::Bne => enc_branch(labels, inst, 0x6),
        Mnemonic::Bcc => enc_branch(labels, inst, 0x4),
        Mnemonic::Bcs => enc_branch(labels, inst, 0x5),
        Mnemonic::Bpl => enc_branch(labels, inst, 0x8),
        Mnemonic::Bmi => enc_branch(labels, inst, 0x9),
        Mnemonic::Bge => enc_branch(labels, inst, 0xC),
        Mnemonic::Blt => enc_branch(labels, inst, 0xD),
        Mnemonic::Bgt => enc_branch(labels, inst, 0xE),
        Mnemonic::Ble => enc_branch(labels, inst, 0xF),
        Mnemonic::Nop => Some((0x4E71, None::<u16>)),
        Mnemonic::Simhalt => Some((0x4E72, None::<u16>)),
        Mnemonic::Add => enc_add(inst),
        Mnemonic::Sub => enc_sub(inst),
        Mnemonic::Cmp => enc_cmp(inst),
        Mnemonic::Jmp => enc_jump(labels, inst),
        Mnemonic::Jump => enc_jump(labels, inst),
        Mnemonic::Unknown => None,
    }
}

/// Encode one instruction against the label table.
pub fn encode_instruction(labels: &Vec<(Vec<u8>, u32)>, inst: &SourceInstr) -> (r: Option<
    (u16, Option<u16>),
>)
    ensures
        r == encode_spec(table_view(labels@), inst@),
{
    proof {
        lemma_parts_view(&inst.operands);
    }
    let tag = mnemonic_tag(inst.mnemonic.as_slice());
    match tag {
        Mnemonic::Moveq => {
            if inst.operands.len() != 2 {
                return None;
            }
            match parse_immediate(inst.operands[0].as_slice()) {
                Some(v) => match parse_data_register(inst.operands[1].as_slice()) {
                    Some(reg) => Some((0x7000 | ((reg as u16) << 9) | i8_low_byte(v), None)),
                    None => None,
                },
                None => None,
            }
        },
        Mnemonic::Move => {
            if inst.operands.len() != 2 {
                return None;
            }
            let src = inst.operands[0].as_slice();
            let dst = inst.operands[1].as_slice();
            if src.len() > 0 && src[0] == HASH {
                if let Some(d) = parse_data_register(dst) {
                    if let Some(v) = parse_immediate_u16(src) {
                        return Some((0x21FC | ((d as u16) << 9), Some(v)));
                    }
                }
            }
            if let Some(a) = parse_indirect_register(src) {
                if let Some(d) = parse_data_register(dst) {
                    return Some((0x2010 | ((d as u16) << 9) | (a as u16), None));
                }
            }
            if let Some(r) = parse_data_register(src) {
                if let Some(a) = parse_indirect_register(dst) {
                    return Some((0x2080 | ((a as u16) << 9) | (r as u16), None));
                }
            }
            if let Some(s) = parse_data_register(src) {
                if let Some(d) = parse_data_register(dst) {
                    return Some((0x3000 | ((d as u16) << 9) | (s as u16), None));
                }
            }
            if let Some(d) = parse_data_register(dst) {
                if let Some(a) = table_lookup(labels, src) {
                    return Some((0x2078 | ((d as u16) << 9), Some((a % 0x10000) as u16)));
                }
            }
            if let Some(r) = parse_data_register(src) {
                if let Some(a) = table_lookup(labels, dst) {
                    return Some((0x23C0 | (r as u16), Some((a % 0x10000) as u16)));
                }
            }
            None
        },
        Mnemonic::Movea => {
            if inst.operands.len() != 2 {
                return None;
            }
            let src = inst.operands[0].as_slice();
            let dst = inst.operands[1].as_slice();
            if src.len() > 0 && src[0] == HASH {
                if let Some(a) = parse_address_register(dst) {
                    let name = sub_bytes(src, 1, src.len());
                    proof {
                        assert(name@ =~= inst@.operands[0].drop_first());
                    }
                    if let Some(t) = table_lookup(labels, name.as_slice()) {
                        return Some((0x207C | ((a as u16) << 9), Some((t % 0x10000) as u16)));
                    }
                }
            }
            None
        },
        Mnemonic::Muls => {
            if inst.operands.len() != 2 {
                return None;
            }
            let src = inst.operands[0].as_slice();
            let dst = inst.operands[1].as_slice();
            match parse_data_register(dst) {
                Some(d) => {
                    if src.len() > 0 && src[0] == HASH {
                        match parse_immediate_u16(src) {
                            Some(v) => Some((0xC1FC | ((d as u16) << 9), Some(v))),
                            None => None,
                        }
                    } else {
                        match parse_data_register(src) {
                            Some(s) => Some((0xC1C0 | ((d as u16) << 9) | (s as u16), None)),
                            None => None,
                        }
                    }
                },
                None => None,
            }
        },
        Mnemonic::Tst => {
            if inst.operands.len() != 1 {
                return None;
            }
            match parse_data_register(inst.operands[0].as_slice()) {
                Some(reg) => Some((0x4A80 | (reg as u16), None)),
                None => None,
            }
        },
        Mnemonic::Subq => {
            if inst.operands.len() != 2 {
                return None;
            }
            match parse_immediate(inst.operands[0].as_slice()) {
                Some(v) => match parse_data_register(inst.operands[1].as_slice()) {
                    Some(reg) => {
                        let imm = extend8_16(v);
                        let data = if imm == 8 {
                            0
                        } else {
                            imm & 0x7
                        };
                        Some((0x5180 | (data << 9) | (reg as u16), None))
                    },
                    None => None,
                },
                None => None,
            }
        },
        Mnemonic::Asl => {
            if inst.operands.len() != 2 {
                return None;
            }
            match parse_immediate(inst.operands[0].as_slice()) {
                Some(v) => match parse_data_register(inst.operands[1].as_slice()) {
                    Some(reg) => {
                        let count = extend8_16(v);
                        let data = if count == 8 {
                            0
                        } else {
                            count & 0x7
                        };
                        Some((0xE180 | (data << 9) | (reg as u16), None))
                    },
                    None => None,
                },
                None => None,
            }
        },
        Mnemonic::Dbra => {
            if inst.operands.len() != 2 {
                return None;
            }
            match parse_data_register(inst.operands[0].as_slice()) {
                Some(reg) => {
                    match parse_branch_displacement(
                        labels,
                        inst.operands[1].as_slice(),
                        inst.address,
                    ) {
                        Some(_) => Some((0x51C8 | (reg as u16), None)),
                        None => None,
                    }
                },
                None => None,
            }
        },
        Mnemonic::Bra => encode_branch(labels, inst, 0x0),
        Mnemonic::Beq => encode_branch(labels, inst, 0x7),
        Mnemonic::Bne => encode_branch(labels, inst, 0x6),
        Mnemonic::Bcc => encode_branch(labels, inst, 0x4),
        Mnemonic::Bcs => encode_branch(labels, inst, 0x5),
        Mnemonic::Bpl => encode_branch(labels, inst, 0x8),
        Mnemonic::Bmi => encode_branch(labels, inst, 0x9),
        Mnemonic::Bge => encode_branch(labels, inst, 0xC),
        Mnemonic::Blt => encode_branch(labels, inst, 0xD),
        Mnemonic::Bgt => encode_branch(labels, inst, 0xE),
        Mnemonic::Ble => encode_branch(labels, inst, 0xF),
        Mnemonic::Nop => Some((0x4E71, None)),
        Mnemonic::Simhalt => Some((0x4E72, None)),
        Mnemonic::Add => {
            if inst.operands.len() != 2 {
                return None;
            }
            match (
                parse_data_register(inst.operands[0].as_slice()),
                parse_data_register(inst.operands[1].as_slice()),
            ) {
                (Some(s), Some(d)) => Some((0xD040 | ((d as u16) << 9) | (s as u16), None)),
                _ => None,
            }
        },
        Mnemonic::Sub => {
            if inst.operands.len() != 2 {
                return None;
            }
            match (
                parse_data_register(inst.operands[0].as_slice()),
                parse_data_register(inst.operands[1].as_slice()),
            ) {
                (Some(s), Some(d)) => Some((0x9040 | ((d as u16) << 9) | (s as u16), None)),
                _ => None,
            }
        },
        Mnemonic::Cmp => {
            if inst.operands.len() != 2 {
                return None;
            }
            let src = inst.operands[0].as_slice();
            if src.len() > 0 && src[0] == HASH {
                match (parse_immediate_u16(src), parse_data_register(
                    inst.operands[1].as_slice(),
                )) {
                    (Some(v), Some(d)) => Some((0x0C80 | (d as u16), Some(v))),
                    _ => None,
                }
            } else {
                match (parse_data_register(src), parse_data_register(
                    inst.operands[1].as_slice(),
                )) {
                    (Some(s), Some(d)) => Some((0xB040 | ((d as u16) << 9) | (s as u16), None)),
                    _ => None,
                }
            }
        },
        Mnemonic::Jmp => {
            if inst.operands.len() != 1 {
                return None;
            }
            if parse_immediate_address(labels, inst.operands[0].as_slice()).is_some() {
                Some((0x4EF8, None))
            } else {
                None
            }
        },
        Mnemonic::Jump => {
            if inst.operands.len() != 1 {
                return None;
            }
            if parse_immediate_address(labels, inst.operands[0].as_slice()).is_some() {
                Some((0x4EF8, None))
            } else {
                None
            }
        },
        Mnemonic::Unknown => None,
    }
}

fn encode_branch(labels: &Vec<(Vec<u8>, u32)>, inst: &SourceInstr, condition: u16) -> (r: Option<
    (u16, Option<u16>),
>)
    requires
        condition <= 0xF,
    ensures
        r == enc_branch(table_view(labels@), inst@, condition),
{
    proof {
        lemma_parts_view(&inst.operands);
    }
    if inst.operands.len() == 0 {
        return None;
    }
    match parse_branch_displacement(labels, inst.operands[0].as_slice(), inst.address) {
        Some(d) => Some((0x6000 | (condition << 8) | i8_low_byte(d), None)),
        None => None,
    }
}

} // verus!
