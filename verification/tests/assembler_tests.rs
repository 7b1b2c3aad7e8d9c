use mc68000::Assembler;

#[test]
fn test_moveq_parsing() {
    let mut assembler = Assembler::new();
    let code = assembler.assemble(&["MOVEQ #42, D0"]);
    assert_eq!(code[0].1, 0x702A);
}

#[test]
fn test_move_parsing() {
    let mut assembler = Assembler::new();
    let code = assembler.assemble(&["MOVE D0, D1"]);
    assert_eq!(code[0].1, 0x3200);
}

#[test]
fn test_branch_parsing() {
    let mut assembler = Assembler::new();
    let code = assembler.assemble(&["BRA +2"]);
    assert_eq!(code[0].1, 0x6002);
}
