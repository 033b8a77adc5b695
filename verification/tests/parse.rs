use rust_bf::Instr;
use rust_bf::Program;
use rust_bf::SyntaxError;

#[test]
fn parse_1() {
    assert_eq!(Program::parse("+++").unwrap().instrs(), &vec![Instr::Add(3)]);
}

#[test]
fn parse_2() {
    assert_eq!(
        Program::parse("---").unwrap().instrs(),
        &vec![Instr::Add(0u8.wrapping_sub(3))]
    );
}

#[test]
fn parse_3() {
    assert_eq!(
        Program::parse("++>>[--<<]").unwrap().instrs(),
        &vec![
            Instr::Add(2),
            Instr::Ptr(2),
            Instr::LoopBegin(5),
            Instr::Add(0u8.wrapping_sub(2)),
            Instr::Ptr(-2),
            Instr::LoopEnd(2)
        ]
    );
}

#[test]
fn parse_net_moves() {
    assert_eq!(Program::parse("><<").unwrap().instrs(), &vec![Instr::Ptr(-1)]);
    assert_eq!(Program::parse(">>><").unwrap().instrs(), &vec![Instr::Ptr(2)]);
}

#[test]
fn parse_drops_other_characters() {
    assert_eq!(
        Program::parse("a+ b+\nc+ comment!").unwrap().instrs(),
        &vec![Instr::Add(3)]
    );
}

#[test]
fn parse_empty_source() {
    assert_eq!(Program::parse("").unwrap().instrs(), &Vec::<Instr>::new());
}

#[test]
fn parse_unmatched_closing_bracket() {
    match Program::parse("]") {
        Err(e) => assert_eq!(e, SyntaxError::UnmatchedClosingBracket(0)),
        Ok(_) => panic!("a lone closing bracket must not parse"),
    }
}

#[test]
fn parse_unmatched_closing_bracket_position_is_coalesced() {
    match Program::parse("++]") {
        Err(e) => assert_eq!(e, SyntaxError::UnmatchedClosingBracket(1)),
        Ok(_) => panic!("an unmatched closing bracket must not parse"),
    }
}

#[test]
fn parse_unmatched_opening_brackets() {
    match Program::parse("[") {
        Err(e) => assert_eq!(e, SyntaxError::UnmatchedOpeningBrackets(1)),
        Ok(_) => panic!("a lone opening bracket must not parse"),
    }
    match Program::parse("[[+[") {
        Err(e) => assert_eq!(e, SyntaxError::UnmatchedOpeningBrackets(3)),
        Ok(_) => panic!("unclosed opening brackets must not parse"),
    }
}

#[test]
fn parse_nested_brackets_link_both_ways() {
    assert_eq!(
        Program::parse("[[]]").unwrap().instrs(),
        &vec![
            Instr::LoopBegin(3),
            Instr::LoopBegin(2),
            Instr::LoopEnd(1),
            Instr::LoopEnd(0)
        ]
    );
}

#[test]
fn parse_add_wraps_modulo_256() {
    let source: String = "+".repeat(300);
    assert_eq!(
        Program::parse(&source).unwrap().instrs(),
        &vec![Instr::Add(44)]
    );
}
