use vstd::prelude::*;

use crate::binary_code_generator::{
    encode, lemma_one_line_per_instruction, lemma_symbol_lines, line, BinaryCodeGenerator,
    GenerateError, GenerateErrorModel,
};
use crate::instructions::{AModel, InstrModel};
use crate::symbol_table::predefined;
use crate::lexer::Lexer;
use crate::parser::{lemma_program_extends, parse_source, ParseError, ParseErrorModel, Parser};

verus! {

/// Why a source text could not be assembled.
#[derive(Debug)]
pub enum AssembleError {
    Parse(ParseError),
    Generate(GenerateError),
}

/// The meaning of an assembly error.
pub enum AssembleErrorModel {
    Parse(ParseErrorModel),
    Generate(GenerateErrorModel),
}

impl View for AssembleError {
    type V = AssembleErrorModel;

    open spec fn view(&self) -> AssembleErrorModel {
        match self {
            AssembleError::Parse(e) => AssembleErrorModel::Parse(e@),
            AssembleError::Generate(e) => AssembleErrorModel::Generate(e@),
        }
    }
}

/// The machine code of a source text: parse it, then encode the instructions
/// against the table the parse produced.
pub open spec fn assembled(source: Seq<u8>) -> Result<Seq<u8>, AssembleErrorModel> {
    match parse_source(source) {
        Err(e) => Err(AssembleErrorModel::Parse(e)),
        Ok((instrs, t)) => match encode(instrs, t) {
            Err(e) => Err(AssembleErrorModel::Generate(e)),
            Ok((out, _)) => Ok(out),
        },
    }
}

/// Translates assembly source text into lines of sixteen `0`/`1` characters,
/// one per instruction, each ending in a newline.
pub fn assemble(source: Vec<u8>) -> (r: Result<Vec<u8>, AssembleError>)
    ensures
        match (r, assembled(source@)) {
            (Ok(out), Ok(o)) => out@ == o,
            (Err(e), Err(e2)) => e@ == e2,
            _ => false,
        },
{
    let lexer = Lexer::new(source);
    let mut parser = Parser::new(lexer);
    let (instructions, symbol_table) = match parser.parse() {
        Ok(p) => p,
        Err(e) => {
            return Err(AssembleError::Parse(e));
        },
    };
    let mut generator = BinaryCodeGenerator::new(instructions, symbol_table);
    match generator.generate() {
        Ok(out) => Ok(out),
        Err(e) => Err(AssembleError::Generate(e)),
    }
}

/// The line of instruction `k` in an output.
pub open spec fn line_at(out: Seq<u8>, k: int) -> Seq<u8> {
    out.subrange(17 * k, 17 * k + 17)
}

/// The output has one line per instruction, labels giving none: seventeen
/// bytes per parsed instruction, sixteen of them `0` or `1` and a newline
/// ending each.
pub proof fn lemma_output_lines(source: Seq<u8>)
    requires
        assembled(source) is Ok,
    ensures
        assembled(source)->Ok_0.len() == 17 * parse_source(source)->Ok_0.0.len(),
        forall|k: int, j: int|
            0 <= k < parse_source(source)->Ok_0.0.len() && 0 <= j < 17 ==> (
            #[trigger] assembled(source)->Ok_0[17 * k + j] == 10u8 <==> j == 16),
        forall|k: int, j: int|
            0 <= k < parse_source(source)->Ok_0.0.len() && 0 <= j < 16 ==> (
            #[trigger] assembled(source)->Ok_0[17 * k + j] == 48u8 || assembled(source)->Ok_0[17
                * k + j] == 49u8),
{
    let (instrs, t) = parse_source(source)->Ok_0;
    lemma_one_line_per_instruction(instrs, t);
}

/// A symbolic address instruction is encoded as the address its name has in
/// the final table.
proof fn lemma_symbol_line(source: Seq<u8>, k: int)
    requires
        assembled(source) is Ok,
        0 <= k < parse_source(source)->Ok_0.0.len(),
        parse_source(source)->Ok_0.0[k] is A,
        parse_source(source)->Ok_0.0[k]->A_0 is Symbol,
    ensures
        ({
            let (instrs, t) = parse_source(source)->Ok_0;
            let name = instrs[k]->A_0->Symbol_0;
            let t2 = encode(instrs, t)->Ok_0.1;
            &&& t2.bindings.contains_key(name)
            &&& line_at(assembled(source)->Ok_0, k) == line(t2.bindings[name])
            &&& t.bindings.contains_key(name) ==> t2.bindings[name] == t.bindings[name]
        }),
{
    let (instrs, t) = parse_source(source)->Ok_0;
    lemma_symbol_lines(instrs, t);
    let name = instrs[k]->A_0->Symbol_0;
    assert(t.bindings.contains_key(name) ==> encode(instrs, t)->Ok_0.1.bindings.contains_key(name));
}

/// A label is bound to the number of instructions before its declaration, so
/// to at most the program's length, and every reference to it, before or
/// after the declaration, is encoded as that address.
pub proof fn lemma_label_address(source: Seq<u8>, name: Seq<char>, k: int)
    requires
        assembled(source) is Ok,
        parse_source(source)->Ok_0.1.bindings.contains_key(name),
        !predefined().contains_key(name),
        0 <= k < parse_source(source)->Ok_0.0.len(),
        parse_source(source)->Ok_0.0[k] == InstrModel::A(AModel::Symbol(name)),
    ensures
        parse_source(source)->Ok_0.1.bindings[name] <= parse_source(source)->Ok_0.0.len(),
        line_at(assembled(source)->Ok_0, k) == line(parse_source(source)->Ok_0.1.bindings[name]),
{
    lemma_program_extends(source, 0, Seq::empty(), crate::parser::initial_table());
    lemma_symbol_line(source, k);
}

/// Two address instructions naming the same symbol are encoded alike.
pub proof fn lemma_same_symbol_same_address(source: Seq<u8>, name: Seq<char>, j: int, k: int)
    requires
        assembled(source) is Ok,
        0 <= j < parse_source(source)->Ok_0.0.len(),
        0 <= k < parse_source(source)->Ok_0.0.len(),
        parse_source(source)->Ok_0.0[j] == InstrModel::A(AModel::Symbol(name)),
        parse_source(source)->Ok_0.0[k] == InstrModel::A(AModel::Symbol(name)),
    ensures
        line_at(assembled(source)->Ok_0, j) == line_at(assembled(source)->Ok_0, k),
{
    lemma_symbol_line(source, j);
    lemma_symbol_line(source, k);
}

/// A predefined name is never given a variable address: wherever it is
/// referenced, it is encoded as its predefined address.
pub proof fn lemma_predefined_address(source: Seq<u8>, name: Seq<char>, k: int)
    requires
        assembled(source) is Ok,
        predefined().contains_key(name),
        0 <= k < parse_source(source)->Ok_0.0.len(),
        parse_source(source)->Ok_0.0[k] == InstrModel::A(AModel::Symbol(name)),
    ensures
        line_at(assembled(source)->Ok_0, k) == line(predefined()[name]),
{
    lemma_program_extends(source, 0, Seq::empty(), crate::parser::initial_table());
    assert(crate::parser::initial_table().bindings.contains_key(name));
    lemma_symbol_line(source, k);
}

} // verus!
