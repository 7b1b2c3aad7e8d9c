//! Operand and directive syntax: register names, immediates in decimal or
//! hexadecimal notation, the `ORG` and data directives, and the mnemonic
//! keywords, with their parsers.

use vstd::prelude::*;

use crate::labels::{lookup, LabelsView};
use crate::text::{
    all_digits, contains_byte, contains_seq, find_byte, find_idx, has_prefix, is_dec_digit,
    parse_int, parse_signed8, parse_uint, parse_unsigned, split_ws, split_ws_bytes,
    starts_with_bytes, sub_bytes, to_upper, trim, trim_bytes, upper_seq, COLON, DIGIT_0, DOLLAR, HASH,
    LOW_X, LPAREN, RPAREN, SP,
};

verus! {

/// Upper-case keyword byte strings the scanner and the encoders compare
/// against. Letters are written as their ASCII codes.
pub open spec fn kw_end() -> Seq<u8> {
    seq![69u8, 78, 68]
}

pub open spec fn kw_org() -> Seq<u8> {
    seq![79u8, 82, 71]
}

pub open spec fn kw_dc() -> Seq<u8> {
    seq![68u8, 67]
}

pub open spec fn kw_ds() -> Seq<u8> {
    seq![68u8, 83]
}

pub open spec fn kw_dc_dot() -> Seq<u8> {
    seq![68u8, 67, 46]
}

pub open spec fn kw_ds_dot() -> Seq<u8> {
    seq![68u8, 83, 46]
}

pub open spec fn kw_dc_l() -> Seq<u8> {
    seq![68u8, 67, 46, 76]
}

pub open spec fn kw_dc_w() -> Seq<u8> {
    seq![68u8, 67, 46, 87]
}

pub open spec fn kw_dc_b() -> Seq<u8> {
    seq![68u8, 67, 46, 66]
}

pub open spec fn kw_ds_l() -> Seq<u8> {
    seq![68u8, 83, 46, 76]
}

pub open spec fn kw_ds_w() -> Seq<u8> {
    seq![68u8, 83, 46, 87]
}

pub open spec fn kw_ds_b() -> Seq<u8> {
    seq![68u8, 83, 46, 66]
}

/// The mnemonics the encoder understands.
#[derive(PartialEq, Eq, Structural, Clone, Copy, Debug)]
pub enum Mnemonic {
    Moveq,
    Move,
    Movea,
    Muls,
    Tst,
    Subq,
    Asl,
    Dbra,
    Bra,
    Beq,
    Bne,
    Bcc,
    Bcs,
    Bpl,
    Bmi,
    Bge,
    Blt,
    Bgt,
    Ble,
    Nop,
    Simhalt,
    Add,
    Sub,
    Cmp,
    Jmp,
    Jump,
    Unknown,
}

pub open spec fn kw_moveq() -> Seq<u8> {
    seq![77u8, 79, 86, 69, 81]
}

pub open spec fn kw_move() -> Seq<u8> {
    seq![77u8, 79, 86, 69]
}

pub open spec fn kw_movea() -> Seq<u8> {
    seq![77u8, 79, 86, 69, 65]
}

pub open spec fn kw_muls() -> Seq<u8> {
    seq![77u8, 85, 76, 83]
}

pub open spec fn kw_tst() -> Seq<u8> {
    seq![84u8, 83, 84]
}

pub open spec fn kw_subq() -> Seq<u8> {
    seq![83u8, 85, 66, 81]
}

pub open spec fn kw_asl() -> Seq<u8> {
    seq![65u8, 83, 76]
}

pub open spec fn kw_dbra() -> Seq<u8> {
    seq![68u8, 66, 82, 65]
}

pub open spec fn kw_bra() -> Seq<u8> {
    seq![66u8, 82, 65]
}

pub open spec fn kw_beq() -> Seq<u8> {
    seq![66u8, 69, 81]
}

pub open spec fn kw_bne() -> Seq<u8> {
    seq![66u8, 78, 69]
}

pub open spec fn kw_bcc() -> Seq<u8> {
    seq![66u8, 67, 67]
}

pub open spec fn kw_bcs() -> Seq<u8> {
    seq![66u8, 67, 83]
}

pub open spec fn kw_bpl() -> Seq<u8> {
    seq![66u8, 80, 76]
}

pub open spec fn kw_bmi() -> Seq<u8> {
    seq![66u8, 77, 73]
}

pub open spec fn kw_bge() -> Seq<u8> {
    seq![66u8, 71, 69]
}

pub open spec fn kw_blt() -> Seq<u8> {
    seq![66u8, 76, 84]
}

pub open spec fn kw_bgt() -> Seq<u8> {
    seq![66u8, 71, 84]
}

pub open spec fn kw_ble() -> Seq<u8> {
    seq![66u8, 76, 69]
}

pub open spec fn kw_nop() -> Seq<u8> {
    seq![78u8, 79, 80]
}

pub open spec fn kw_simhalt() -> Seq<u8> {
    seq![83u8, 73, 77, 72, 65, 76, 84]
}

pub open spec fn kw_add() -> Seq<u8> {
    seq![65u8, 68, 68]
}

pub open spec fn kw_sub() -> Seq<u8> {
    seq![83u8, 85, 66]
}

pub open spec fn kw_cmp() -> Seq<u8> {
    seq![67u8, 77, 80]
}

pub open spec fn kw_jmp() -> Seq<u8> {
    seq![74u8, 77, 80]
}

pub open spec fn kw_jump() -> Seq<u8> {
    seq![74u8, 85, 77, 80]
}

/// Which mnemonic an upper-cased token names.
pub open spec fn mnemonic_of(m: Seq<u8>) -> Mnemonic {
    if m == kw_moveq() {
        Mnemonic::Moveq
    } else if m == kw_move() {
        Mnemonic::Move
    } else if m == kw_movea() {
        Mnemonic::Movea
    } else if m == kw_muls() {
        Mnemonic::Muls
    } else if m == kw_tst() {
        Mnemonic::Tst
    } else if m == kw_subq() {
        Mnemonic::Subq
    } else if m == kw_asl() {
        Mnemonic::Asl
    } else if m == kw_dbra() {
        Mnemonic::Dbra
    } else if m == kw_bra() {
        Mnemonic::Bra
    } else if m == kw_beq() {
        Mnemonic::Beq
    } else if m == kw_bne() {
        Mnemonic::Bne
    } else if m == kw_bcc() {
        Mnemonic::Bcc
    } else if m == kw_bcs() {
        Mnemonic::Bcs
    } else if m == kw_bpl() {
        Mnemonic::Bpl
    } else if m == kw_bmi() {
        Mnemonic::Bmi
    } else if m == kw_bge() {
        Mnemonic::Bge
    } else if m == kw_blt() {
        Mnemonic::Blt
    } else if m == kw_bgt() {
        Mnemonic::Bgt
    } else if m == kw_ble() {
        Mnemonic::Ble
    } else if m == kw_nop() {
        Mnemonic::Nop
    } else if m == kw_simhalt() {
        Mnemonic::Simhalt
    } else if m == kw_add() {
        Mnemonic::Add
    } else if m == kw_sub() {
        Mnemonic::Sub
    } else if m == kw_cmp() {
        Mnemonic::Cmp
    } else if m == kw_jmp() {
        Mnemonic::Jmp
    } else if m == kw_jump() {
        Mnemonic::Jump
    } else {
        Mnemonic::Unknown
    }
}

/// Classify an upper-cased mnemonic token.
pub fn mnemonic_tag(m: &[u8]) -> (t: Mnemonic)
    ensures
        t == mnemonic_of(m@),
{
    let moveq = [77u8, 79, 86, 69, 81];
    if crate::text::bytes_eq(m, moveq.as_slice()) {
        return Mnemonic::Moveq;
    }
    let mv = [77u8, 79, 86, 69];
    if crate::text::bytes_eq(m, mv.as_slice()) {
        return Mnemonic::Move;
    }
    let movea = [77u8, 79, 86, 69, 65];
    if crate::text::bytes_eq(m, movea.as_slice()) {
        return Mnemonic::Movea;
    }
    let muls = [77u8, 85, 76, 83];
    if crate::text::bytes_eq(m, muls.as_slice()) {
        return Mnemonic::Muls;
    }
    let tst = [84u8, 83, 84];
    if crate::text::bytes_eq(m, tst.as_slice()) {
        return Mnemonic::Tst;
    }
    let subq = [83u8, 85, 66, 81];
    if crate::text::bytes_eq(m, subq.as_slice()) {
        return Mnemonic::Subq;
    }
    let asl = [65u8, 83, 76];
    if crate::text::bytes_eq(m, asl.as_slice()) {
        return Mnemonic::Asl;
    }
    let dbra = [68u8, 66, 82, 65];
    if crate::text::bytes_eq(m, dbra.as_slice()) {
        return Mnemonic::Dbra;
    }
    let bra = [66u8, 82, 65];
    if crate::text::bytes_eq(m, bra.as_slice()) {
        return Mnemonic::Bra;
    }
    let beq = [66u8, 69, 81];
    if crate::text::bytes_eq(m, beq.as_slice()) {
        return Mnemonic::Beq;
    }
    let bne = [66u8, 78, 69];
    if crate::text::bytes_eq(m, bne.as_slice()) {
        return Mnemonic::Bne;
    }
    let bcc = [66u8, 67, 67];
    if crate::text::bytes_eq(m, bcc.as_slice()) {
        return Mnemonic::Bcc;
    }
    let bcs = [66u8, 67, 83];
    if crate::text::bytes_eq(m, bcs.as_slice()) {
        return Mnemonic::Bcs;
    }
    let bpl = [66u8, 80, 76];
    if crate::text::bytes_eq(m, bpl.as_slice()) {
        return Mnemonic::Bpl;
    }
    let bmi = [66u8, 77, 73];
    if crate::text::bytes_eq(m, bmi.as_slice()) {
        return Mnemonic::Bmi;
    }
    let bge = [66u8, 71, 69];
    if crate::text::bytes_eq(m, bge.as_slice()) {
        return Mnemonic::Bge;
    }
    let blt = [66u8, 76, 84];
    if crate::text::bytes_eq(m, blt.as_slice()) {
        return Mnemonic::Blt;
    }
    let bgt = [66u8, 71, 84];
    if crate::text::bytes_eq(m, bgt.as_slice()) {
        return Mnemonic::Bgt;
    }
    let ble = [66u8, 76, 69];
    if crate::text::bytes_eq(m, ble.as_slice()) {
        return Mnemonic::Ble;
    }
    let nop = [78u8, 79, 80];
    if crate::text::bytes_eq(m, nop.as_slice()) {
        return Mnemonic::Nop;
    }
    let simhalt = [83u8, 73, 77, 72, 65, 76, 84];
    if crate::text::bytes_eq(m, simhalt.as_slice()) {
        return Mnemonic::Simhalt;
    }
    let add = [65u8, 68, 68];
    if crate::text::bytes_eq(m, add.as_slice()) {
        return Mnemonic::Add;
    }
    let sub = [83u8, 85, 66];
    if crate::text::bytes_eq(m, sub.as_slice()) {
        return Mnemonic::Sub;
    }
    let cmp = [67u8, 77, 80];
    if crate::text::bytes_eq(m, cmp.as_slice()) {
        return Mnemonic::Cmp;
    }
    let jmp = [74u8, 77, 80];
    if crate::text::bytes_eq(m, jmp.as_slice()) {
        return Mnemonic::Jmp;
    }
    let jump = [74u8, 85, 77, 80];
    if crate::text::bytes_eq(m, jump.as_slice()) {
        return Mnemonic::Jump;
    }
    Mnemonic::Unknown
}

/// A register operand `Dn` or `An` with `n` between 0 and 7: the letter,
/// one decimal digit, nothing else.
pub open spec fn reg_spec(op: Seq<u8>, letter: u8) -> Option<u8> {
    if op.len() == 2 && op[0] == letter && is_dec_digit(op[1]) && op[1] - DIGIT_0 <= 7 {
        Some((op[1] - DIGIT_0) as u8)
    } else {
        None
    }
}

/// A data-register operand `D0`..`D7`.
pub open spec fn data_reg_spec(op: Seq<u8>) -> Option<u8> {
    reg_spec(op, 68)
}

/// An address-register operand `A0`..`A7`.
pub open spec fn addr_reg_spec(op: Seq<u8>) -> Option<u8> {
    reg_spec(op, 65)
}

/// An address-register-indirect operand `(An)`.
pub open spec fn indirect_reg_spec(op: Seq<u8>) -> Option<u8> {
    if op.len() >= 2 && op[0] == LPAREN && op.last() == RPAREN {
        addr_reg_spec(op.subrange(1, op.len() - 1))
    } else {
        None
    }
}

fn reg_parse(op: &[u8], letter: u8) -> (r: Option<u8>)
    ensures
        r == reg_spec(op@, letter),
{
    if op.len() == 2 && op[0] == letter {
        let d = op[1];
        if DIGIT_0 <= d && d <= DIGIT_0 + 7 {
            return Some(d - DIGIT_0);
        }
    }
    None
}

/// Parse a data-register operand.
pub fn parse_data_register(op: &[u8]) -> (r: Option<u8>)
    ensures
        r == data_reg_spec(op@),
{
    reg_parse(op, 68)
}

/// Parse an address-register operand.
pub fn parse_address_register(op: &[u8]) -> (r: Option<u8>)
    ensures
        r == addr_reg_spec(op@),
{
    reg_parse(op, 65)
}

/// Parse an address-register-indirect operand.
pub fn parse_indirect_register(op: &[u8]) -> (r: Option<u8>)
    ensures
        r == indirect_reg_spec(op@),
{
    if op.len() >= 2 && op[0] == LPAREN && op[op.len() - 1] == RPAREN {
        let inner = sub_bytes(op, 1, op.len() - 1);
        parse_address_register(inner.as_slice())
    } else {
        None
    }
}

/// An unsigned number with an optional `$` or `0x` radix prefix:
/// hexadecimal with a prefix, decimal without.
pub open spec fn prefixed_uint(t: Seq<u8>, max: int) -> Option<int> {
    if t.len() > 0 && t[0] == DOLLAR {
        parse_uint(t.drop_first(), true, max)
    } else if has_prefix(t, seq![DIGIT_0, LOW_X]) {
        parse_uint(t.subrange(2, t.len() as int), true, max)
    } else {
        parse_uint(t, false, max)
    }
}

/// A signed 8-bit number with an optional `$` or `0x` radix prefix.
pub open spec fn prefixed_int8(t: Seq<u8>) -> Option<int> {
    if t.len() > 0 && t[0] == DOLLAR {
        parse_int(t.drop_first(), true, -128, 127)
    } else if has_prefix(t, seq![DIGIT_0, LOW_X]) {
        parse_int(t.subrange(2, t.len() as int), true, -128, 127)
    } else {
        parse_int(t, false, -128, 127)
    }
}

/// Parse an unsigned number with an optional radix prefix, up to `max`.
pub fn parse_prefixed_uint(t: &[u8], max: u32) -> (r: Option<u32>)
    ensures
        match prefixed_uint(t@, max as int) {
            Some(v) => r == Some(v as u32),
            None => r is None,
        },
{
    if t.len() > 0 && t[0] == DOLLAR {
        let rest = sub_bytes(t, 1, t.len());
        proof {
            assert(rest@ =~= t@.drop_first());
        }
        parse_unsigned(rest.as_slice(), true, max)
    } else {
        let pre = [DIGIT_0, LOW_X];
        if starts_with_bytes(t, pre.as_slice()) {
            proof {
                assert(pre@ =~= seq![DIGIT_0, LOW_X]);
            }
            let rest = sub_bytes(t, 2, t.len());
            parse_unsigned(rest.as_slice(), true, max)
        } else {
            proof {
                assert(pre@ =~= seq![DIGIT_0, LOW_X]);
            }
            parse_unsigned(t, false, max)
        }
    }
}

/// Parse a signed 8-bit number with an optional radix prefix.
pub fn parse_prefixed_int8(t: &[u8]) -> (r: Option<i8>)
    ensures
        match prefixed_int8(t@) {
            Some(v) => r == Some(v as i8),
            None => r is None,
        },
{
    if t.len() > 0 && t[0] == DOLLAR {
        let rest = sub_bytes(t, 1, t.len());
        proof {
            assert(rest@ =~= t@.drop_first());
        }
        parse_signed8(rest.as_slice(), true)
    } else {
        let pre = [DIGIT_0, LOW_X];
        if starts_with_bytes(t, pre.as_slice()) {
            proof {
                assert(pre@ =~= seq![DIGIT_0, LOW_X]);
            }
            let rest = sub_bytes(t, 2, t.len());
            parse_signed8(rest.as_slice(), true)
        } else {
            proof {
                assert(pre@ =~= seq![DIGIT_0, LOW_X]);
            }
            parse_signed8(t, false)
        }
    }
}

/// An immediate operand `#value` as a signed 8-bit number. The number may
/// be decimal or carry a `$`/`0x` radix prefix; with a prefix the digits
/// are hexadecimal and may still carry a sign.
pub open spec fn imm_i8_spec(op: Seq<u8>) -> Option<int> {
    if op.len() > 0 && op[0] == HASH {
        let v = op.drop_first();
        if has_prefix(v, seq![DIGIT_0, LOW_X]) {
            parse_int(v.subrange(2, v.len() as int), true, -128, 127)
        } else if v.len() > 0 && v[0] == DOLLAR {
            parse_int(v.drop_first(), true, -128, 127)
        } else {
            parse_int(v, false, -128, 127)
        }
    } else {
        None
    }
}

/// An immediate operand `#value` as an unsigned 16-bit number.
pub open spec fn imm_u16_spec(op: Seq<u8>) -> Option<int> {
    if op.len() > 0 && op[0] == HASH {
        let v = op.drop_first();
        if has_prefix(v, seq![DIGIT_0, LOW_X]) {
            parse_uint(v.subrange(2, v.len() as int), true, 0xFFFF)
        } else if v.len() > 0 && v[0] == DOLLAR {
            parse_uint(v.drop_first(), true, 0xFFFF)
        } else {
            parse_uint(v, false, 0xFFFF)
        }
    } else {
        None
    }
}

/// Parse an immediate operand as a signed 8-bit number.
pub fn parse_immediate(op: &[u8]) -> (r: Option<i8>)
    ensures
        match imm_i8_spec(op@) {
            Some(v) => r == Some(v as i8),
            None => r is None,
        },
{
    if op.len() > 0 && op[0] == HASH {
        let v = sub_bytes(op, 1, op.len());
        proof {
            assert(v@ =~= op@.drop_first());
        }
        let pre = [DIGIT_0, LOW_X];
        proof {
            assert(pre@ =~= seq![DIGIT_0, LOW_X]);
        }
        if starts_with_bytes(v.as_slice(), pre.as_slice()) {
            let rest = sub_bytes(v.as_slice(), 2, v.len());
            parse_signed8(rest.as_slice(), true)
        } else if v.len() > 0 && v[0] == DOLLAR {
            let rest = sub_bytes(v.as_slice(), 1, v.len());
            proof {
                assert(rest@ =~= v@.drop_first());
            }
            parse_signed8(rest.as_slice(), true)
        } else {
            parse_signed8(v.as_slice(), false)
        }
    } else {
        None
    }
}

/// Parse an immediate operand as an unsigned 16-bit number.
pub fn parse_immediate_u16(op: &[u8]) -> (r: Option<u16>)
    ensures
        match imm_u16_spec(op@) {
            Some(v) => r == Some(v as u16),
            None => r is None,
        },
{
    if op.len() > 0 && op[0] == HASH {
        let v = sub_bytes(op, 1, op.len());
        proof {
            assert(v@ =~= op@.drop_first());
        }
        let pre = [DIGIT_0, LOW_X];
        proof {
            assert(pre@ =~= seq![DIGIT_0, LOW_X]);
        }
        let parsed: Option<u32> = if starts_with_bytes(v.as_slice(), pre.as_slice()) {
            let rest = sub_bytes(v.as_slice(), 2, v.len());
            parse_unsigned(rest.as_slice(), true, 0xFFFF)
        } else if v.len() > 0 && v[0] == DOLLAR {
            let rest = sub_bytes(v.as_slice(), 1, v.len());
            proof {
                assert(rest@ =~= v@.drop_first());
            }
            parse_unsigned(rest.as_slice(), true, 0xFFFF)
        } else {
            parse_unsigned(v.as_slice(), false, 0xFFFF)
        };
        proof {
            let vv = op@.drop_first();
            crate::text::lemma_parse_uint_range(vv.subrange(2, vv.len() as int), true, 0xFFFF);
            crate::text::lemma_parse_uint_range(vv.drop_first(), true, 0xFFFF);
            crate::text::lemma_parse_uint_range(vv, false, 0xFFFF);
        }
        match parsed {
            Some(v) => Some(v as u16),
            None => None,
        }
    } else {
        None
    }
}

/// An absolute-address operand: `$hex`, `0xhex`, plain decimal digits, or
/// a label name looked up in the table; the address is truncated to its
/// low 16 bits.
pub open spec fn imm_addr_spec(labels: LabelsView, op: Seq<u8>) -> Option<u16> {
    if op.len() > 0 && op[0] == DOLLAR {
        match parse_uint(op.drop_first(), true, 0xFFFF) {
            Some(v) => Some(v as u16),
            None => None,
        }
    } else if has_prefix(op, seq![DIGIT_0, LOW_X]) {
        match parse_uint(op.subrange(2, op.len() as int), true, 0xFFFF) {
            Some(v) => Some(v as u16),
            None => None,
        }
    } else if all_digits(op, false) {
        match parse_uint(op, false, 0xFFFF) {
            Some(v) => Some(v as u16),
            None => None,
        }
    } else {
        match lookup(labels, op) {
            Some(a) => Some((a % 0x10000) as u16),
            None => None,
        }
    }
}

/// The `ORG` directive's address: the second whitespace token of the line,
/// as a number with an optional radix prefix.
pub open spec fn org_spec(line: Seq<u8>) -> Option<u32> {
    let parts = split_ws(line);
    if parts.len() < 2 {
        None
    } else {
        match prefixed_uint(parts[1], u32::MAX as int) {
            Some(v) => Some(v as u32),
            None => None,
        }
    }
}

/// Parse an `ORG` directive line.
pub fn parse_org_directive(line: &[u8]) -> (r: Option<u32>)
    ensures
        r == org_spec(line@),
{
    let parts = split_ws_bytes(line);
    proof {
        lemma_parts_view(&parts);
    }
    if parts.len() < 2 {
        None
    } else {
        parse_prefixed_uint(parts[1].as_slice(), u32::MAX)
    }
}

/// Parse an absolute-address operand against the label table.
pub fn parse_immediate_address(labels: &Vec<(Vec<u8>, u32)>, op: &[u8]) -> (r: Option<u16>)
    ensures
        r == imm_addr_spec(crate::labels::table_view(labels@), op@),
{
    if op.len() > 0 && op[0] == DOLLAR {
        let rest = sub_bytes(op, 1, op.len());
        proof {
            assert(rest@ =~= op@.drop_first());
            crate::text::lemma_parse_uint_range(op@.drop_first(), true, 0xFFFF);
        }
        match parse_unsigned(rest.as_slice(), true, 0xFFFF) {
            Some(v) => Some(v as u16),
            None => None,
        }
    } else {
        let pre = [DIGIT_0, LOW_X];
        proof {
            assert(pre@ =~= seq![DIGIT_0, LOW_X]);
        }
        if starts_with_bytes(op, pre.as_slice()) {
            let rest = sub_bytes(op, 2, op.len());
            proof {
                crate::text::lemma_parse_uint_range(op@.subrange(2, op@.len() as int), true, 0xFFFF);
            }
            match parse_unsigned(rest.as_slice(), true, 0xFFFF) {
                Some(v) => Some(v as u16),
                None => None,
            }
        } else if crate::text::all_dec_digits(op) {
            proof {
                crate::text::lemma_parse_uint_range(op@, false, 0xFFFF);
            }
            match parse_unsigned(op, false, 0xFFFF) {
                Some(v) => Some(v as u16),
                None => None,
            }
        } else {
            match crate::labels::table_lookup(labels, op) {
                Some(a) => Some((a % 0x10000) as u16),
                None => None,
            }
        }
    }
}

/// The tokens from `parts[from]` on, joined with single spaces.
pub open spec fn join_sp(parts: Seq<Seq<u8>>) -> Seq<u8>
    decreases parts.len(),
{
    if parts.len() == 0 {
        Seq::empty()
    } else if parts.len() == 1 {
        parts[0]
    } else {
        parts[0] + seq![SP] + join_sp(parts.drop_first())
    }
}

/// Join the tokens from `parts[from]` on with single spaces.
pub fn join_with_space(parts: &Vec<Vec<u8>>, from: usize) -> (r: Vec<u8>)
    requires
        from <= parts@.len(),
    ensures
        r@ == join_sp(parts.deep_view().skip(from as int)),
    decreases parts@.len() - from,
{
    let ghost dv = parts.deep_view();
    proof {
        lemma_parts_view(parts);
    }
    if from == parts.len() {
        proof {
            assert(dv.skip(from as int) =~= Seq::<Seq<u8>>::empty());
        }
        Vec::new()
    } else if from == parts.len() - 1 {
        let r = sub_bytes(parts[from].as_slice(), 0, parts[from].len());
        proof {
            assert(dv.skip(from as int) =~= seq![dv[from as int]]);
            assert(r@ =~= parts@[from as int]@);
        }
        r
    } else {
        let mut r = sub_bytes(parts[from].as_slice(), 0, parts[from].len());
        r.push(SP);
        let rest = join_with_space(parts, from + 1);
        crate::text::push_all(&mut r, rest.as_slice());
        proof {
            let tail = dv.skip(from as int);
            assert(tail.drop_first() =~= dv.skip(from + 1));
            assert(r@ =~= tail[0] + seq![SP] + join_sp(tail.drop_first()));
        }
        r
    }
}

/// A data directive line, digested: the label defined on the line (empty
/// when there is none), the size it occupies in bytes, and the initial
/// value of a `DC` directive.
pub ghost struct DataDirectiveView {
    pub name: Seq<u8>,
    pub size: u32,
    pub value: Option<u32>,
}

/// How a `DC.*`/`DS.*` line is read. A leading `name:` or a first token
/// that does not begin with `DC`/`DS` names a label. The size suffix is
/// found anywhere on the upper-cased line: `.L` is four bytes, `.W` two,
/// `.B` one, two when absent. A `DC` directive's second token is its
/// initial value.
pub open spec fn data_directive_spec(line: Seq<u8>) -> DataDirectiveView {
    let up = upper_seq(line);
    let nd: (Seq<u8>, Seq<u8>) = if contains_byte(line, COLON) {
        let e = find_idx(line, COLON);
        (trim(line.subrange(0, e)), trim(line.subrange(e + 1, line.len() as int)))
    } else {
        let parts = split_ws(line);
        if parts.len() >= 2 && !has_prefix(upper_seq(parts[0]), kw_dc()) && !has_prefix(
            upper_seq(parts[0]),
            kw_ds(),
        ) {
            (parts[0], join_sp(parts.drop_first()))
        } else {
            (Seq::<u8>::empty(), line)
        }
    };
    let size: u32 = if contains_seq(up, kw_dc_l()) || contains_seq(up, kw_ds_l()) {
        4
    } else if contains_seq(up, kw_dc_w()) || contains_seq(up, kw_ds_w()) {
        2
    } else if contains_seq(up, kw_dc_b()) || contains_seq(up, kw_ds_b()) {
        1
    } else {
        2
    };
    let value: Option<u32> = if contains_seq(up, kw_dc_dot()) {
        let vparts = split_ws(nd.1);
        if vparts.len() >= 2 {
            match prefixed_uint(vparts[1], u32::MAX as int) {
                Some(v) => Some(v as u32),
                None => None,
            }
        } else {
            None
        }
    } else {
        None
    };
    DataDirectiveView { name: nd.0, size, value }
}

/// Parse a data directive line into its label, size and value.
pub fn parse_data_directive_with_value(line: &[u8]) -> (r: (Vec<u8>, u32, Option<u32>))
    ensures
        r.0@ == data_directive_spec(line@).name,
        r.1 == data_directive_spec(line@).size,
        r.2 == data_directive_spec(line@).value,
{
    let up = to_upper(line);
    let (name, dstr): (Vec<u8>, Vec<u8>) = match find_byte(line, COLON) {
        Some(e) => {
            let n = line.len();
            let before = sub_bytes(line, 0, e);
            let after = sub_bytes(line, e + 1, n);
            (trim_bytes(before.as_slice()), trim_bytes(after.as_slice()))
        },
        None => {
            let parts = split_ws_bytes(line);
            proof {
                lemma_parts_view(&parts);
            }
            let mut tagged = false;
            if parts.len() >= 2 {
                let first_up = to_upper(parts[0].as_slice());
                let dc = [68u8, 67];
                let ds = [68u8, 83];
                proof {
                    assert(dc@ =~= kw_dc());
                    assert(ds@ =~= kw_ds());
                }
                if !starts_with_bytes(first_up.as_slice(), dc.as_slice())
                    && !starts_with_bytes(first_up.as_slice(), ds.as_slice()) {
                    tagged = true;
                }
            }
            if tagged {
                let nm = sub_bytes(parts[0].as_slice(), 0, parts[0].len());
                proof {
                    assert(nm@ =~= parts.deep_view()[0]);
                    assert(parts.deep_view().skip(1) =~= parts.deep_view().drop_first());
                }
                (nm, join_with_space(&parts, 1))
            } else {
                (Vec::new(), sub_bytes(line, 0, line.len()))
            }
        },
    };
    proof {
        assert(line@.subrange(0, line@.len() as int) =~= line@);
    }
    let size: u32 = {
        let dc_l = [68u8, 67, 46, 76];
        let ds_l = [68u8, 83, 46, 76];
        let dc_w = [68u8, 67, 46, 87];
        let ds_w = [68u8, 83, 46, 87];
        let dc_b = [68u8, 67, 46, 66];
        let ds_b = [68u8, 83, 46, 66];
        proof {
            assert(dc_l@ =~= kw_dc_l());
            assert(ds_l@ =~= kw_ds_l());
            assert(dc_w@ =~= kw_dc_w());
            assert(ds_w@ =~= kw_ds_w());
            assert(dc_b@ =~= kw_dc_b());
            assert(ds_b@ =~= kw_ds_b());
        }
        if crate::text::contains_bytes(up.as_slice(), dc_l.as_slice()) || crate::text::contains_bytes(
            up.as_slice(),
            ds_l.as_slice(),
        ) {
            4
        } else if crate::text::contains_bytes(up.as_slice(), dc_w.as_slice())
            || crate::text::contains_bytes(up.as_slice(), ds_w.as_slice()) {
            2
        } else if crate::text::contains_bytes(up.as_slice(), dc_b.as_slice())
            || crate::text::contains_bytes(up.as_slice(), ds_b.as_slice()) {
            1
        } else {
            2
        }
    };
    let value: Option<u32> = {
        let dc_dot = [68u8, 67, 46];
        proof {
            assert(dc_dot@ =~= kw_dc_dot());
        }
        if crate::text::contains_bytes(up.as_slice(), dc_dot.as_slice()) {
            let vparts = split_ws_bytes(dstr.as_slice());
            proof {
                lemma_parts_view(&vparts);
            }
            if vparts.len() >= 2 {
                parse_prefixed_uint(vparts[1].as_slice(), u32::MAX)
            } else {
                None
            }
        } else {
            None
        }
    };
    (name, size, value)
}


/// Elements of a `Vec<Vec<u8>>` seen through `deep_view` are the views of
/// its elements.
pub proof fn lemma_parts_view(parts: &Vec<Vec<u8>>)
    ensures
        parts.deep_view().len() == parts@.len(),
        forall|i: int| 0 <= i < parts@.len() ==> parts.deep_view()[i] == parts@[i]@,
{
    assert forall|i: int| 0 <= i < parts@.len() implies parts.deep_view()[i] == parts@[i]@ by {
        assert(parts@[i].deep_view() =~= parts@[i]@);
    }
}

} // verus!
