use mc68000::cpu::StepOutcome;
use mc68000::{Assembler, Memory, CPU};

// Exact encodings, one per opcode formula.

#[test]
fn test_encode_move_long_immediate() {
    let mut assembler = Assembler::new();
    let code = assembler.assemble(&["MOVE.L #42, D0"]);
    assert_eq!(code, vec![(0, 0x21FC), (2, 42)]);
}

#[test]
fn test_encode_move_indirect_to_register() {
    let mut assembler = Assembler::new();
    let code = assembler.assemble(&["MOVE.L (A0), D1"]);
    assert_eq!(code, vec![(0, 0x2210)]);
}

#[test]
fn test_encode_move_register_to_indirect() {
    let mut assembler = Assembler::new();
    let code = assembler.assemble(&["MOVE.L D1, (A2)"]);
    assert_eq!(code, vec![(0, 0x2481)]);
}

#[test]
fn test_encode_move_label_to_register() {
    let mut assembler = Assembler::new();
    let code = assembler.assemble(&["V: DC.L 7", "MOVE.L V, D3"]);
    // Data words for V at 0, then the opcode with V's address in the
    // extension word.
    assert_eq!(code, vec![(0, 0), (2, 7), (4, 0x2678), (6, 0)]);
}

#[test]
fn test_encode_move_register_to_label() {
    let mut assembler = Assembler::new();
    let code = assembler.assemble(&["V: DC.L 7", "MOVE.L D4, V"]);
    assert_eq!(code, vec![(0, 0), (2, 7), (4, 0x23C4), (6, 0)]);
}

#[test]
fn test_encode_movea_label() {
    let mut assembler = Assembler::new();
    let code = assembler.assemble(&["V: DC.L 9", "MOVEA.L #V, A1"]);
    assert_eq!(code, vec![(0, 0), (2, 9), (4, 0x227C), (6, 0)]);
}

#[test]
fn test_encode_muls_forms() {
    let mut assembler = Assembler::new();
    let code = assembler.assemble(&["MULS #3, D2", "MULS D1, D2"]);
    assert_eq!(code, vec![(0, 0xC5FC), (2, 3), (4, 0xC5C1)]);
}

#[test]
fn test_encode_add_sub_cmp() {
    let mut assembler = Assembler::new();
    let code = assembler.assemble(&["ADD D0, D1", "SUB D1, D2", "CMP D0, D1", "CMP.L #5, D0"]);
    assert_eq!(
        code,
        vec![(0, 0xD240), (2, 0x9441), (4, 0xB240), (6, 0x0C80), (8, 5)]
    );
}

#[test]
fn test_encode_tst_subq_asl_dbra() {
    let mut assembler = Assembler::new();
    let code = assembler.assemble(&[
        "here: TST D3",
        "SUBQ.L #1, D1",
        "SUBQ.L #8, D2",
        "ASL.L #2, D1",
        "DBRA D0, here",
    ]);
    assert_eq!(
        code,
        vec![(0, 0x4A83), (2, 0x5381), (4, 0x5182), (6, 0xE581), (8, 0x51C8)]
    );
}

#[test]
fn test_encode_nop_simhalt_jmp() {
    let mut assembler = Assembler::new();
    let code = assembler.assemble(&["NOP", "SIMHALT", "JMP $1000"]);
    assert_eq!(code, vec![(0, 0x4E71), (2, 0x4E72), (4, 0x4EF8)]);
}

#[test]
fn test_encode_branch_backwards() {
    let mut assembler = Assembler::new();
    let code = assembler.assemble(&["loop: NOP", "BRA loop"]);
    // The branch at address 2 targets address 0: displacement -4 = 0xFC.
    assert_eq!(code, vec![(0, 0x4E71), (2, 0x60FC)]);
}

#[test]
fn test_encode_moveq_negative() {
    let mut assembler = Assembler::new();
    let code = assembler.assemble(&["MOVEQ #-1, D0"]);
    assert_eq!(code, vec![(0, 0x70FF)]);
}

#[test]
fn test_hex_immediates() {
    let mut assembler = Assembler::new();
    let code = assembler.assemble(&["MOVEQ #$2A, D0", "MOVEQ #0x2a, D1"]);
    assert_eq!(code, vec![(0, 0x702A), (2, 0x722A)]);
}

// Inputs the assembler rejects: no words for the bad line, the rest kept.

#[test]
fn test_branch_out_of_range_dropped() {
    let mut assembler = Assembler::new();
    let lines = vec!["BRA far", "ORG $200", "far: NOP"];
    let code = assembler.assemble(&lines);
    // The branch target is 510 bytes away: only the NOP survives.
    assert_eq!(code, vec![(0x200, 0x4E71)]);
}

#[test]
fn test_moveq_immediate_too_large_dropped() {
    let mut assembler = Assembler::new();
    let code = assembler.assemble(&["MOVEQ #200, D0"]);
    assert!(code.is_empty(), "an immediate past the signed byte range encodes nothing");
}

#[test]
fn test_move_long_immediate_too_large_dropped() {
    let mut assembler = Assembler::new();
    let code = assembler.assemble(&["MOVE.L #70000, D0"]);
    assert!(code.is_empty(), "an immediate past one word encodes nothing");
}

#[test]
fn test_bad_register_dropped() {
    let mut assembler = Assembler::new();
    let code = assembler.assemble(&["ADD D8, D1", "ADD D0"]);
    assert!(code.is_empty(), "a bad register or arity encodes nothing");
}

#[test]
fn test_unresolved_label_dropped() {
    let mut assembler = Assembler::new();
    let code = assembler.assemble(&["BEQ nowhere", "NOP"]);
    assert_eq!(code, vec![(2, 0x4E71)], "only the line with the unknown label is dropped");
}

// Directives.

#[test]
fn test_end_stops_scanning() {
    let mut assembler = Assembler::new();
    let code = assembler.assemble(&["NOP", "END", "NOP"]);
    assert_eq!(code, vec![(0, 0x4E71)]);
}

#[test]
fn test_org_hex_and_decimal() {
    let mut assembler = Assembler::new();
    let code = assembler.assemble(&["ORG 16", "NOP", "ORG $20", "NOP", "ORG 0x30", "NOP"]);
    assert_eq!(code, vec![(16, 0x4E71), (0x20, 0x4E71), (0x30, 0x4E71)]);
}

#[test]
fn test_ds_reserves_space() {
    let mut assembler = Assembler::new();
    let code = assembler.assemble(&["ORG $0800", "A: DS.L 1", "B: DC.L 7", "C: DS.W 1", "D: NOP"]);
    // DS.L reserves four bytes with no value, so B lands at $0804 and its
    // two data words carry the declared 7; DS.W reserves two more.
    assert_eq!(code, vec![(0x0804, 0), (0x0806, 7), (0x080A, 0x4E71)]);
}

#[test]
fn test_dc_long_value_composes_in_memory() {
    let mut assembler = Assembler::new();
    let code = assembler.assemble(&["ORG $0800", "V: DC.L $12345678"]);
    assert_eq!(code, vec![(0x0800, 0x1234), (0x0802, 0x5678)]);
    let mut memory = Memory::new();
    for (address, word) in &code {
        memory.write_word(*address, *word);
    }
    assert_eq!(memory.read_long(0x0800), 0x12345678);
}

// Memory round trips.

#[test]
fn test_long_word_round_trip() {
    let mut memory = Memory::new();
    memory.write_long(0x1000, 0xDEADBEEF);
    assert_eq!(memory.read_long(0x1000), 0xDEADBEEF);
    assert_eq!(memory.read_word(0x1000), 0xDEAD, "high word first");
    assert_eq!(memory.read_word(0x1002), 0xBEEF, "low word second");
    assert_eq!(memory.read_byte(0x1000), 0xDE);
    assert_eq!(memory.read_byte(0x1003), 0xEF);
}

// Execution details.

#[test]
fn test_moveq_negative_sets_flags() {
    let mut cpu = CPU::new();
    let mut memory = Memory::new();
    memory.write_word(0, 0x70FF); // MOVEQ #-1, D0
    let outcome = cpu.execute_instruction(&mut memory);
    assert_eq!(outcome, StepOutcome::Ran);
    assert_eq!(cpu.get_data_register(0), 0xFFFFFFFF);
    assert_eq!(cpu.get_ccr() & 0x08, 0x08, "negative flag set");
    assert_eq!(cpu.get_ccr() & 0x04, 0, "zero flag clear");
}

#[test]
fn test_sub_sets_zero_flag() {
    let mut cpu = CPU::new();
    let mut memory = Memory::new();
    memory.write_word(0, 0x702A); // MOVEQ #42, D0
    memory.write_word(2, 0x722A); // MOVEQ #42, D1
    memory.write_word(4, 0x9240); // SUB D0, D1
    cpu.execute_instruction(&mut memory);
    cpu.execute_instruction(&mut memory);
    cpu.execute_instruction(&mut memory);
    assert_eq!(cpu.get_data_register(1), 0);
    assert_eq!(cpu.get_ccr() & 0x04, 0x04, "zero flag set");
}

#[test]
fn test_addq_adds() {
    let mut cpu = CPU::new();
    let mut memory = Memory::new();
    memory.write_word(0, 0x7005); // MOVEQ #5, D0
    memory.write_word(2, 0x5080); // ADDQ.L #8, D0 (immediate field 0 means 8)
    cpu.execute_instruction(&mut memory);
    cpu.execute_instruction(&mut memory);
    assert_eq!(cpu.get_data_register(0), 13);
}

#[test]
fn test_reset_restores_supervisor_state() {
    let mut cpu = CPU::new();
    cpu.set_pc(0x1234);
    cpu.reset();
    assert_eq!(cpu.get_pc(), 0);
    assert_eq!(cpu.get_ccr(), 0);
    assert_eq!(cpu.get_sr(), 0x2700);
}

#[test]
fn test_address_fault_reported() {
    let mut cpu = CPU::new();
    let mut memory = Memory::new();
    cpu.set_pc(0xFFFFFF);
    let outcome = cpu.execute_instruction(&mut memory);
    assert_eq!(outcome, StepOutcome::AddressError);
    assert_eq!(cpu.get_pc(), 0xFFFFFF, "a fault leaves the state unchanged");
}

#[test]
fn test_run_reports_halt() {
    let mut cpu = CPU::new();
    let mut memory = Memory::new();
    memory.write_word(0, 0x4E71); // NOP
    memory.write_word(2, 0x4E72); // SIMHALT
    let outcome = cpu.run(&mut memory, 10);
    assert_eq!(outcome, StepOutcome::Halted);
    assert_eq!(cpu.get_pc(), 2, "the program counter stalls at the halt word");
}

#[test]
fn test_run_respects_step_budget() {
    let mut cpu = CPU::new();
    let mut memory = Memory::new();
    // An endless loop: BRA -2 branches to itself.
    memory.write_word(0, 0x60FE);
    let outcome = cpu.run(&mut memory, 25);
    assert_eq!(outcome, StepOutcome::Ran);
    assert_eq!(cpu.get_pc(), 0);
}

#[test]
fn test_branch_taken_and_not_taken() {
    let mut assembler = Assembler::new();
    let lines = vec![
        "MOVEQ #0, D0",
        "BEQ taken",
        "MOVEQ #1, D1",
        "taken: MOVEQ #2, D2",
        "BNE not_taken",
        "MOVEQ #3, D3",
        "not_taken: SIMHALT",
    ];
    let code = assembler.assemble(&lines);
    let mut memory = Memory::new();
    for (address, word) in &code {
        memory.write_word(*address, *word);
    }
    let mut cpu = CPU::new();
    let outcome = cpu.run(&mut memory, 100);
    assert_eq!(outcome, StepOutcome::Halted);
    assert_eq!(cpu.get_data_register(1), 0, "the taken branch skipped D1");
    assert_eq!(cpu.get_data_register(2), 2);
    assert_eq!(
        cpu.get_data_register(3),
        0,
        "BNE after a nonzero result was taken, so D3 stays 0"
    );
}

// Case handling: mnemonics and directives fold to upper case, register
// names and labels stay case-sensitive.

#[test]
fn test_lowercase_mnemonic() {
    let mut assembler = Assembler::new();
    let code = assembler.assemble(&["nop", "moveq #42, D0"]);
    assert_eq!(code, vec![(0, 0x4E71), (2, 0x702A)]);
}

#[test]
fn test_lowercase_register_rejected() {
    let mut assembler = Assembler::new();
    let code = assembler.assemble(&["MOVEQ #42, d0"]);
    assert!(code.is_empty(), "register names are upper-case only");
}

#[test]
fn test_lowercase_end_stops() {
    let mut assembler = Assembler::new();
    let code = assembler.assemble(&["NOP", "end", "NOP"]);
    assert_eq!(code, vec![(0, 0x4E71)]);
}

#[test]
fn test_org_without_operand_ignored() {
    let mut assembler = Assembler::new();
    let code = assembler.assemble(&["ORG", "NOP"]);
    assert_eq!(code, vec![(0, 0x4E71)], "a bare ORG leaves the address alone");
}

// The listing, and blank or comment lines leaving the output unchanged.

#[test]
fn test_listing_shows_labels() {
    let mut assembler = Assembler::new();
    assembler.assemble(&["NOP", "LOOP: NOP"]);
    let mut output = String::new();
    assembler.print_assembly_to_string(&mut output);
    assert_eq!(
        output,
        "=== Assembly Listing ===\n\n=== Labels ===\nLOOP: 000002\n\n"
    );
}

#[test]
fn test_listing_without_labels() {
    let mut assembler = Assembler::new();
    assembler.assemble(&["NOP"]);
    let mut output = String::new();
    assembler.print_assembly_to_string(&mut output);
    assert_eq!(output, "=== Assembly Listing ===\n\n");
}

#[test]
fn test_comment_lines_change_nothing() {
    let mut with_comments = Assembler::new();
    let mut without = Assembler::new();
    let a = with_comments.assemble(&[
        "; heading",
        "MOVEQ #1, D0",
        "   ",
        "loop: ADD D0, D1",
        "; trailing note",
        "BNE loop",
    ]);
    let b = without.assemble(&["MOVEQ #1, D0", "loop: ADD D0, D1", "BNE loop"]);
    assert_eq!(a, b);
}
