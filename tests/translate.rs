use assembler::assembler::{assemble, AssembleError};
use assembler::binary_code_generator::{BinaryCodeGenerator, GenerateError};
use assembler::instructions::{AInstruction, CInstruction, Destination, Instruction, Jump};
use assembler::lexer::Lexer;
use assembler::parser::{ParseError, Parser};
use assembler::symbol_table::SymbolTable;
use assembler::token::Token;

fn run(source: &str) -> Result<String, AssembleError> {
    assemble(source.as_bytes().to_vec()).map(|out| String::from_utf8(out).unwrap())
}

fn lines(source: &str) -> Vec<String> {
    run(source).unwrap().lines().map(|l| l.to_string()).collect()
}

fn word(v: u16) -> String {
    format!("{:016b}", v)
}

#[test]
fn test_tokenize() {
    let mut lexer = Lexer::new(b"@2 // load\n(LOOP)\nD=D-A;JGT\r\n".to_vec());
    let mut seen = Vec::new();
    loop {
        match lexer.lex_token() {
            Token::Error => panic!("Error"),
            Token::EOF => break,
            token => seen.push(format!("{:?}", token)),
        }
    }
    let expected = vec![
        "At", "Number(2)", "NewLine", "LParen", "ID(\"LOOP\")", "RParen", "NewLine",
        "ID(\"D\")", "Equal", "ID(\"D\")", "Minus", "ID(\"A\")", "Semi", "ID(\"JGT\")", "NewLine",
    ];
    assert_eq!(seen, expected);
    assert!(matches!(lexer.lex_token(), Token::EOF));
    assert!(matches!(lexer.lex_token(), Token::EOF));
}

#[test]
fn lexer_number_bounds() {
    let mut lexer = Lexer::new(b"32767 32768 007 @".to_vec());
    assert!(matches!(lexer.lex_token(), Token::Number(32767)));
    assert!(matches!(lexer.lex_token(), Token::Error));
    assert!(matches!(lexer.lex_token(), Token::Number(7)));
    assert!(matches!(lexer.lex_token(), Token::At));
    assert!(matches!(lexer.lex_token(), Token::EOF));
}

#[test]
fn lexer_identifier_characters() {
    let mut lexer = Lexer::new(b"a_b.c$d:e9 #".to_vec());
    match lexer.lex_token() {
        Token::ID(s) => assert_eq!(s, "a_b.c$d:e9"),
        t => panic!("unexpected {:?}", t),
    }
    assert!(matches!(lexer.lex_token(), Token::Error));
}

#[test]
fn encodes_screen_address() {
    assert_eq!(run("@16384\n").unwrap(), "0100000000000000\n");
}

#[test]
fn encodes_increment_of_d() {
    assert_eq!(run("D=D+1\n").unwrap(), "1110011111010000\n");
}

#[test]
fn encodes_unconditional_jump() {
    assert_eq!(run("0;JMP\n").unwrap(), "1110101010000111\n");
}

#[test]
fn encodes_destination_comp_and_jump() {
    assert_eq!(run("AM=M-1;JNE\n").unwrap(), "1111110010101101\n");
    assert_eq!(run("ADM=D|M\n").unwrap(), "1111010101111000\n");
    assert_eq!(run("D;JLE\n").unwrap(), "1110001100000110\n");
}

#[test]
fn one_line_per_instruction() {
    let src = "(START)\n@2\nD=A\n(MID)\n\n@3\nD=D+A\n(END)\n@END\n0;JMP\n";
    let out = lines(src);
    assert_eq!(out.len(), 6);
    assert!(out.iter().all(|l| l.len() == 16 && l.chars().all(|c| c == '0' || c == '1')));
}

#[test]
fn label_forward_and_backward_references() {
    let src = "@END\n0;JMP\n(LOOP)\n@LOOP\n0;JMP\n(END)\n@END\n0;JMP\n";
    let out = lines(src);
    assert_eq!(out[0], word(4));
    assert_eq!(out[2], word(2));
    assert_eq!(out[4], word(4));
}

#[test]
fn same_variable_same_address() {
    let out = lines("@foo\n@bar\n@foo\nM=1\n@bar\n");
    assert_eq!(out[0], word(16));
    assert_eq!(out[1], word(17));
    assert_eq!(out[2], word(16));
    assert_eq!(out[4], word(17));
}

#[test]
fn predefined_names_do_not_allocate() {
    let out = lines("@SCREEN\n@R7\n@KBD\n@SP\n@THAT\n@x\n");
    assert_eq!(out[0], word(16384));
    assert_eq!(out[1], word(7));
    assert_eq!(out[2], word(24576));
    assert_eq!(out[3], word(0));
    assert_eq!(out[4], word(4));
    assert_eq!(out[5], word(16));
}

#[test]
fn destination_synonyms() {
    assert_eq!(run("MD=1\n").unwrap(), run("DM=1\n").unwrap());
    assert_eq!(run("MA=1\n").unwrap(), run("AM=1\n").unwrap());
    assert_eq!(run("DA=1\n").unwrap(), run("AD=1\n").unwrap());
    assert_eq!(&run("MD=1\n").unwrap()[10..13], "011");
}

#[test]
fn duplicate_label_rejected() {
    match run("(L)\n@1\n(L)\n") {
        Err(AssembleError::Parse(ParseError::DuplicateLabel(name))) => assert_eq!(name, "L"),
        other => panic!("unexpected {:?}", other),
    }
    assert!(matches!(run("(SP)\n"), Err(AssembleError::Parse(ParseError::DuplicateLabel(_)))));
}

#[test]
fn number_boundary() {
    assert_eq!(run("@32767\n").unwrap(), "0111111111111111\n");
    assert!(matches!(run("@32768\n"), Err(AssembleError::Parse(ParseError::Syntax(Token::Error)))));
}

#[test]
fn unknown_destination() {
    match run("X=1\n") {
        Err(AssembleError::Parse(ParseError::UnknownDestination(d))) => assert_eq!(d, "X"),
        other => panic!("unexpected {:?}", other),
    }
}

#[test]
fn unknown_jump() {
    match run("0;JXX\n") {
        Err(AssembleError::Parse(ParseError::UnknownJump(j))) => assert_eq!(j, "JXX"),
        other => panic!("unexpected {:?}", other),
    }
}

#[test]
fn unknown_computation() {
    match run("D=A+A\n") {
        Err(AssembleError::Generate(GenerateError::UnknownComputation(c))) => assert_eq!(c, "A+A"),
        other => panic!("unexpected {:?}", other),
    }
}

#[test]
fn syntax_errors() {
    assert!(matches!(run("@\n"), Err(AssembleError::Parse(ParseError::Syntax(Token::NewLine)))));
    assert!(matches!(run("@5"), Err(AssembleError::Parse(ParseError::Syntax(Token::EOF)))));
    assert!(matches!(run("(L\n"), Err(AssembleError::Parse(ParseError::Syntax(Token::NewLine)))));
    assert!(matches!(run("D=A=M\n"), Err(AssembleError::Parse(ParseError::Syntax(Token::Equal)))));
    assert!(matches!(run("D=A\n@5 6\n"), Err(AssembleError::Parse(ParseError::Syntax(Token::Number(6))))));
    assert!(matches!(run("D=A"), Err(AssembleError::Parse(ParseError::Syntax(Token::EOF)))));
    assert!(matches!(run("D=A*2\n"), Err(AssembleError::Parse(ParseError::Syntax(Token::Error)))));
}

#[test]
fn comments_and_blank_lines() {
    assert_eq!(lines("/ single slash comment\n\n  @1 // trailing\n\t\r\n// end").len(), 1);
    assert_eq!(run("").unwrap(), "");
}

#[test]
fn symbol_table_resolution() {
    let mut table = SymbolTable::new();
    assert_eq!(table.get(&"SCREEN".to_string()), 16384);
    assert_eq!(table.next_free(), 16);
    assert_eq!(table.get(&"a".to_string()), 16);
    assert_eq!(table.get(&"b".to_string()), 17);
    assert_eq!(table.get(&"a".to_string()), 16);
    assert_eq!(table.next_free(), 18);
    assert!(table.insert(&"LOOP".to_string(), 9));
    assert!(!table.insert(&"LOOP".to_string(), 10));
    assert_eq!(table.lookup(&"LOOP".to_string()), Some(10));
    assert_eq!(table.lookup(&"missing".to_string()), None);
}

#[test]
fn parser_and_generator_pipeline() {
    let mut parser = Parser::new(Lexer::new(b"(TOP)\n@TOP\nM=M+1;JGT\n".to_vec()));
    let (instructions, table) = parser.parse().unwrap();
    assert_eq!(instructions.len(), 2);
    assert!(matches!(&instructions[0], Instruction::A(AInstruction::Symbol(s)) if s == "TOP"));
    match &instructions[1] {
        Instruction::C(c) => {
            assert_eq!(c.dest, Destination::M);
            assert_eq!(c.comp, "M+1");
            assert_eq!(c.jump, Jump::JGT);
        }
        other => panic!("unexpected {:?}", other),
    }
    let mut generator = BinaryCodeGenerator::new(instructions, table);
    let out = String::from_utf8(generator.generate().unwrap()).unwrap();
    assert_eq!(out, "0000000000000000\n1111110111001001\n");
}

#[test]
fn generator_rejects_large_literal() {
    let instructions = vec![Instruction::A(AInstruction::Number(40000))];
    let mut generator = BinaryCodeGenerator::new(instructions, SymbolTable::new());
    assert_eq!(generator.generate(), Err(GenerateError::AddressOutOfRange));
}

#[test]
fn compute_instruction_constructor() {
    let c = CInstruction::new(Destination::AD, "D-1".to_string(), Jump::JLT);
    let mut generator = BinaryCodeGenerator::new(vec![Instruction::C(c)], SymbolTable::new());
    let out = String::from_utf8(generator.generate().unwrap()).unwrap();
    assert_eq!(out, "1110001110110100\n");
}

#[test]
fn mnemonic_lookup() {
    assert_eq!(Destination::from_mnemonic(&"DA".to_string()), Some(Destination::AD));
    assert_eq!(Destination::from_mnemonic(&"MM".to_string()), None);
    assert_eq!(Jump::from_mnemonic(&"JEQ".to_string()), Some(Jump::JEQ));
    assert_eq!(Jump::from_mnemonic(&"jeq".to_string()), None);
    assert_eq!(Destination::ADM.code(), 7);
    assert_eq!(Jump::JGE.code(), 3);
}

#[test]
fn nul_byte_is_an_error_token() {
    let mut lexer = Lexer::new(vec![0, b'A', b'\n']);
    assert!(matches!(lexer.lex_token(), Token::Error));
    assert!(matches!(lexer.lex_token(), Token::ID(s) if s == "A"));
    assert!(matches!(lexer.lex_token(), Token::NewLine));
    assert!(matches!(lexer.lex_token(), Token::EOF));
    assert!(matches!(
        assemble(b"@1\n\0@2\n".to_vec()),
        Err(AssembleError::Parse(ParseError::Syntax(Token::Error)))
    ));
}

#[test]
fn nul_byte_inside_comment_is_skipped() {
    let out = assemble(b"// a\0b\n@1\n".to_vec()).unwrap();
    assert_eq!(String::from_utf8(out).unwrap(), "0000000000000001\n");
}
