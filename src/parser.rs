use vstd::prelude::*;

use crate::instructions::{
    dest_of, instrs_view, jump_of, AInstruction, AModel, CInstruction, Destination, InstrModel,
    Instruction, Jump,
};
use crate::lexer::{lemma_next_token, next_token, Lexer};
use crate::symbol_table::{predefined, SymbolTable, TableModel, FIRST_VARIABLE};
use crate::text::push_char;
use crate::token::{Token, TokenModel};

verus! {

/// The largest label address a symbol table entry holds.
pub const MAX_LABEL: usize = 65535;

/// Why a source text could not be parsed.
#[derive(Debug)]
pub enum ParseError {
    /// A token that does not fit where it stands.
    Syntax(Token),
    /// A label declared where its name is already bound.
    DuplicateLabel(String),
    /// A destination mnemonic that is not one of the known ones.
    UnknownDestination(String),
    /// A jump mnemonic that is not one of the known ones.
    UnknownJump(String),
    /// A label declared after more instructions than a 16-bit address counts.
    LabelOutOfRange,
}

/// The meaning of a parse error.
pub enum ParseErrorModel {
    Syntax(TokenModel),
    DuplicateLabel(Seq<char>),
    UnknownDestination(Seq<char>),
    UnknownJump(Seq<char>),
    LabelOutOfRange,
}

impl View for ParseError {
    type V = ParseErrorModel;

    open spec fn view(&self) -> ParseErrorModel {
        match self {
            ParseError::Syntax(t) => ParseErrorModel::Syntax(t@),
            ParseError::DuplicateLabel(s) => ParseErrorModel::DuplicateLabel(s@),
            ParseError::UnknownDestination(s) => ParseErrorModel::UnknownDestination(s@),
            ParseError::UnknownJump(s) => ParseErrorModel::UnknownJump(s@),
            ParseError::LabelOutOfRange => ParseErrorModel::LabelOutOfRange,
        }
    }
}

/// The character of a decimal digit.
pub open spec fn digit_char(d: nat) -> char {
    ((d + 48) as u8) as char
}

/// `n` written in decimal, without leading zeros.
pub open spec fn decimal(n: nat) -> Seq<char>
    decreases n,
{
    if n < 10 {
        seq![digit_char(n)]
    } else {
        decimal(n / 10).push(digit_char(n % 10))
    }
}

/// The text a token adds to an operand; `None` for a token that cannot stand
/// in one.
pub open spec fn piece(t: TokenModel) -> Option<Seq<char>> {
    match t {
        TokenModel::ID(s) => Some(s),
        TokenModel::Number(n) => Some(decimal(n as nat)),
        TokenModel::Minus => Some(seq!['-']),
        TokenModel::Plus => Some(seq!['+']),
        TokenModel::Not => Some(seq!['!']),
        TokenModel::And => Some(seq!['&']),
        TokenModel::Or => Some(seq!['|']),
        _ => None,
    }
}

pub open spec fn is_stop(t: TokenModel) -> bool {
    t == TokenModel::Equal || t == TokenModel::Semi || t == TokenModel::NewLine
}

/// The operand text that starts with token `t` (the rest read from `pos`),
/// added to `acc`: the token that ended it (`=`, `;` or a newline), the text
/// and the position after the stop.
pub open spec fn operand(input: Seq<u8>, t: TokenModel, pos: int, acc: Seq<char>) -> Result<
    (TokenModel, Seq<char>, int),
    ParseErrorModel,
>
    decreases input.len() - pos,
    when 0 <= pos <= input.len()
{
    if is_stop(t) {
        Ok((t, acc, pos))
    } else {
        match piece(t) {
            None => Err(ParseErrorModel::Syntax(t)),
            Some(x) => {
                let (t2, p2) = next_token(input, pos);
                proof {
                    lemma_next_token(input, pos);
                }
                if t2 == TokenModel::EOF {
                    Err(ParseErrorModel::Syntax(t2))
                } else {
                    operand(input, t2, p2, acc + x)
                }
            },
        }
    }
}

/// The operand of an address instruction, read from `pos`: a number or a
/// name, then a newline.
pub open spec fn a_operand(input: Seq<u8>, pos: int) -> Result<(AModel, int), ParseErrorModel> {
    let (t, p) = next_token(input, pos);
    let (t2, p2) = next_token(input, p);
    match t {
        TokenModel::Number(n) => if t2 == TokenModel::NewLine {
            Ok((AModel::Number(n), p2))
        } else {
            Err(ParseErrorModel::Syntax(t2))
        },
        TokenModel::ID(s) => if t2 == TokenModel::NewLine {
            Ok((AModel::Symbol(s), p2))
        } else {
            Err(ParseErrorModel::Syntax(t2))
        },
        _ => Err(ParseErrorModel::Syntax(t)),
    }
}

/// The rest of a label declaration, read from `pos`: a name, `)`, a newline.
pub open spec fn label_decl(input: Seq<u8>, pos: int) -> Result<(Seq<char>, int), ParseErrorModel> {
    let (t1, p1) = next_token(input, pos);
    let (t2, p2) = next_token(input, p1);
    let (t3, p3) = next_token(input, p2);
    match t1 {
        TokenModel::ID(name) => if t2 != TokenModel::RParen {
            Err(ParseErrorModel::Syntax(t2))
        } else if t3 != TokenModel::NewLine {
            Err(ParseErrorModel::Syntax(t3))
        } else {
            Ok((name, p3))
        },
        _ => Err(ParseErrorModel::Syntax(t1)),
    }
}

/// A label declaration read from `pos` after `count` instructions: the table
/// with the label bound to `count`.
pub open spec fn label_step(input: Seq<u8>, pos: int, count: nat, t: TableModel) -> Result<
    (TableModel, int),
    ParseErrorModel,
> {
    match label_decl(input, pos) {
        Err(e) => Err(e),
        Ok((name, p)) => if t.bindings.contains_key(name) {
            Err(ParseErrorModel::DuplicateLabel(name))
        } else if count > MAX_LABEL {
            Err(ParseErrorModel::LabelOutOfRange)
        } else {
            Ok((TableModel { bindings: t.bindings.insert(name, count as u16), next: t.next }, p))
        },
    }
}

/// The jump part of a compute instruction, read from `pos` after the `;`.
pub open spec fn jump_part(input: Seq<u8>, pos: int) -> Result<(Jump, int), ParseErrorModel> {
    let (t, p) = next_token(input, pos);
    let (t2, p2) = next_token(input, p);
    match t {
        TokenModel::ID(s) => match jump_of(s) {
            None => Err(ParseErrorModel::UnknownJump(s)),
            Some(j) => if t2 == TokenModel::NewLine {
                Ok((j, p2))
            } else {
                Err(ParseErrorModel::Syntax(t2))
            },
        },
        _ => Err(ParseErrorModel::Syntax(t)),
    }
}

/// A compute instruction that starts with token `t`, the rest read from `pos`.
pub open spec fn c_instr(input: Seq<u8>, t: TokenModel, pos: int) -> Result<(InstrModel, int), ParseErrorModel> {
    match operand(input, t, pos, Seq::empty()) {
        Err(e) => Err(e),
        Ok((stop, s, p)) => if stop == TokenModel::Equal {
            match dest_of(s) {
                None => Err(ParseErrorModel::UnknownDestination(s)),
                Some(d) => {
                    let (t2, p2) = next_token(input, p);
                    match operand(input, t2, p2, Seq::empty()) {
                        Err(e) => Err(e),
                        Ok((stop2, c, p3)) => if stop2 == TokenModel::NewLine {
                            Ok((InstrModel::C(d, c, Jump::NULL), p3))
                        } else if stop2 == TokenModel::Semi {
                            match jump_part(input, p3) {
                                Err(e) => Err(e),
                                Ok((j, p4)) => Ok((InstrModel::C(d, c, j), p4)),
                            }
                        } else {
                            Err(ParseErrorModel::Syntax(stop2))
                        },
                    }
                },
            }
        } else if stop == TokenModel::Semi {
            match jump_part(input, p) {
                Err(e) => Err(e),
                Ok((j, p4)) => Ok((InstrModel::C(Destination::NULL, s, j), p4)),
            }
        } else {
            Ok((InstrModel::C(Destination::NULL, s, Jump::NULL), p))
        },
    }
}

/// The program read from `pos` on, after the instructions `instrs` and with
/// table `t`: the instructions in order and the table with every label bound.
/// Blank lines are skipped; the first malformed construct ends it with an error.
pub open spec fn program(input: Seq<u8>, pos: int, instrs: Seq<InstrModel>, t: TableModel) -> Result<
    (Seq<InstrModel>, TableModel),
    ParseErrorModel,
>
    decreases input.len() - pos,
    when 0 <= pos <= input.len()
{
    let (tok, p) = next_token(input, pos);
    proof {
        lemma_next_token(input, pos);
        lemma_a_operand(input, p);
        lemma_label_step(input, p, instrs.len(), t);
        lemma_c_instr(input, tok, p);
    }
    if tok == TokenModel::EOF {
        Ok((instrs, t))
    } else if tok == TokenModel::NewLine {
        program(input, p, instrs, t)
    } else if tok == TokenModel::At {
        match a_operand(input, p) {
            Err(e) => Err(e),
            Ok((a, p2)) => program(input, p2, instrs.push(InstrModel::A(a)), t),
        }
    } else if tok == TokenModel::LParen {
        match label_step(input, p, instrs.len(), t) {
            Err(e) => Err(e),
            Ok((t2, p2)) => program(input, p2, instrs, t2),
        }
    } else {
        match c_instr(input, tok, p) {
            Err(e) => Err(e),
            Ok((c, p2)) => program(input, p2, instrs.push(c), t),
        }
    }
}

/// A fresh symbol table: the predefined names, variables from address 16.
pub open spec fn initial_table() -> TableModel {
    TableModel { bindings: predefined(), next: FIRST_VARIABLE as nat }
}

/// The whole source text parsed from a fresh symbol table.
pub open spec fn parse_source(input: Seq<u8>) -> Result<(Seq<InstrModel>, TableModel), ParseErrorModel> {
    program(input, 0, Seq::empty(), initial_table())
}

pub proof fn lemma_two_tokens(input: Seq<u8>, pos: int)
    requires
        0 <= pos <= input.len(),
    ensures
        pos <= next_token(input, pos).1 <= next_token(input, next_token(input, pos).1).1 <= input.len(),
{
    lemma_next_token(input, pos);
    lemma_next_token(input, next_token(input, pos).1);
}

pub proof fn lemma_a_operand(input: Seq<u8>, pos: int)
    requires
        0 <= pos <= input.len(),
    ensures
        a_operand(input, pos) is Ok ==> pos <= a_operand(input, pos)->Ok_0.1 <= input.len(),
{
    lemma_two_tokens(input, pos);
}

pub proof fn lemma_label_step(input: Seq<u8>, pos: int, count: nat, t: TableModel)
    requires
        0 <= pos <= input.len(),
    ensures
        label_step(input, pos, count, t) is Ok ==> pos <= label_step(input, pos, count, t)->Ok_0.1
            <= input.len(),
{
    lemma_two_tokens(input, pos);
    lemma_next_token(input, next_token(input, next_token(input, pos).1).1);
}

pub proof fn lemma_operand(input: Seq<u8>, t: TokenModel, pos: int, acc: Seq<char>)
    requires
        0 <= pos <= input.len(),
    ensures
        operand(input, t, pos, acc) is Ok ==> pos <= operand(input, t, pos, acc)->Ok_0.2
            <= input.len(),
    decreases input.len() - pos,
{
    if !is_stop(t) && piece(t) is Some {
        lemma_next_token(input, pos);
        let (t2, p2) = next_token(input, pos);
        if t2 != TokenModel::EOF {
            lemma_operand(input, t2, p2, acc + piece(t)->Some_0);
        }
    }
}

pub proof fn lemma_c_instr(input: Seq<u8>, t: TokenModel, pos: int)
    requires
        0 <= pos <= input.len(),
    ensures
        c_instr(input, t, pos) is Ok ==> pos <= c_instr(input, t, pos)->Ok_0.1 <= input.len(),
{
    lemma_operand(input, t, pos, Seq::empty());
    if let Ok((stop, s, p)) = operand(input, t, pos, Seq::empty()) {
        lemma_two_tokens(input, p);
        let (t2, p2) = next_token(input, p);
        lemma_operand(input, t2, p2, Seq::empty());
        if let Ok((stop2, c, p3)) = operand(input, t2, p2, Seq::empty()) {
            lemma_two_tokens(input, p3);
        }
    }
}

/// Parsing only adds instructions and bindings: the instructions before `pos`
/// stay in front, every name bound before keeps its address, and each label
/// it binds holds the number of instructions that came before its declaration,
/// so no more than the final count.
pub proof fn lemma_program_extends(input: Seq<u8>, pos: int, instrs: Seq<InstrModel>, t: TableModel)
    requires
        0 <= pos <= input.len(),
        program(input, pos, instrs, t) is Ok,
    ensures
        instrs.len() <= program(input, pos, instrs, t)->Ok_0.0.len(),
        program(input, pos, instrs, t)->Ok_0.0.subrange(0, instrs.len() as int) == instrs,
        program(input, pos, instrs, t)->Ok_0.1.next == t.next,
        forall|name: Seq<char>| #[trigger]
            program(input, pos, instrs, t)->Ok_0.1.bindings.contains_key(name) ==> if t.bindings.contains_key(name) {
                program(input, pos, instrs, t)->Ok_0.1.bindings[name] == t.bindings[name]
            } else {
                program(input, pos, instrs, t)->Ok_0.1.bindings[name] <= program(input, pos, instrs, t)->Ok_0.0.len()
            },
        forall|name: Seq<char>|
            #[trigger] t.bindings.contains_key(name) ==> program(input, pos, instrs, t)->Ok_0.1.bindings.contains_key(name),
    decreases input.len() - pos,
{
    let (tok, p) = next_token(input, pos);
    lemma_next_token(input, pos);
    lemma_a_operand(input, p);
    lemma_label_step(input, p, instrs.len(), t);
    lemma_c_instr(input, tok, p);
    let (instrs2, t2) = program(input, pos, instrs, t)->Ok_0;
    if tok == TokenModel::EOF {
        assert(instrs.subrange(0, instrs.len() as int) =~= instrs);
    } else if tok == TokenModel::NewLine {
        lemma_program_extends(input, p, instrs, t);
    } else if tok == TokenModel::At {
        let (a, p2) = a_operand(input, p)->Ok_0;
        let i1 = instrs.push(InstrModel::A(a));
        lemma_program_extends(input, p2, i1, t);
        assert(instrs2.subrange(0, instrs.len() as int) =~= i1.subrange(0, instrs.len() as int));
        assert(i1.subrange(0, instrs.len() as int) =~= instrs);
    } else if tok == TokenModel::LParen {
        let (t1, p2) = label_step(input, p, instrs.len(), t)->Ok_0;
        lemma_program_extends(input, p2, instrs, t1);
        let name = label_decl(input, p)->Ok_0.0;
        assert(!t.bindings.contains_key(name));
        assert(t1.bindings[name] == instrs.len());
        assert forall|k: Seq<char>| #[trigger] t2.bindings.contains_key(k) implies if t.bindings.contains_key(k) {
            t2.bindings[k] == t.bindings[k]
        } else {
            t2.bindings[k] <= instrs2.len()
        } by {
            if k == name {
                assert(t1.bindings.contains_key(k));
            }
        }
        assert forall|k: Seq<char>| #[trigger] t.bindings.contains_key(k) implies t2.bindings.contains_key(k) by {
            assert(t1.bindings.contains_key(k));
        }
    } else {
        let (c, p2) = c_instr(input, tok, p)->Ok_0;
        let i1 = instrs.push(c);
        lemma_program_extends(input, p2, i1, t);
        assert(instrs2.subrange(0, instrs.len() as int) =~= i1.subrange(0, instrs.len() as int));
        assert(i1.subrange(0, instrs.len() as int) =~= instrs);
    }
}

/// A label declared after the instructions `instrs` is bound, in the final
/// table, to their number: the index the next instruction takes in the final
/// list, which keeps `instrs` in front.
pub proof fn lemma_label_binds_position(input: Seq<u8>, pos: int, instrs: Seq<InstrModel>, t: TableModel)
    requires
        0 <= pos <= input.len(),
        next_token(input, pos).0 == TokenModel::LParen,
        program(input, pos, instrs, t) is Ok,
    ensures
        label_decl(input, next_token(input, pos).1) is Ok,
        ({
            let name = label_decl(input, next_token(input, pos).1)->Ok_0.0;
            let (instrs2, t2) = program(input, pos, instrs, t)->Ok_0;
            &&& t2.bindings.contains_key(name)
            &&& t2.bindings[name] == instrs.len()
            &&& instrs2.subrange(0, instrs.len() as int) == instrs
        }),
{
    let p = next_token(input, pos).1;
    lemma_next_token(input, pos);
    lemma_label_step(input, p, instrs.len(), t);
    lemma_program_extends(input, pos, instrs, t);
    let (t1, p2) = label_step(input, p, instrs.len(), t)->Ok_0;
    let name = label_decl(input, p)->Ok_0.0;
    lemma_program_extends(input, p2, instrs, t1);
    assert(t1.bindings.contains_key(name));
}

/// A label declared where its name is already bound is rejected.
pub proof fn lemma_label_redeclared(input: Seq<u8>, pos: int, count: nat, t: TableModel)
    requires
        label_decl(input, pos) is Ok,
        t.bindings.contains_key(label_decl(input, pos)->Ok_0.0),
    ensures
        label_step(input, pos, count, t) == Err::<(TableModel, int), ParseErrorModel>(
            ParseErrorModel::DuplicateLabel(label_decl(input, pos)->Ok_0.0),
        ),
{
}

/// Appends `n` in decimal.
fn push_decimal(s: &mut String, n: u16)
    ensures
        final(s)@ == old(s)@ + decimal(n as nat),
    decreases n,
{
    if n >= 10 {
        push_decimal(s, n / 10);
    }
    let d: u8 = (n % 10) as u8;
    push_char(s, (d + 48) as char);
    proof {
        if n < 10 {
            assert(old(s)@.push(((d + 48) as u8) as char) =~= old(s)@ + decimal(n as nat));
        } else {
            assert(old(s)@ + decimal((n / 10) as nat) + seq![digit_char((n % 10) as nat)]
                =~= old(s)@ + decimal(n as nat));
        }
    }
}

/// Reads tokens and builds the instruction list, binding labels as it goes.
pub struct Parser {
    lexer: Lexer,
    instructions: Vec<Instruction>,
}

impl Parser {
    pub closed spec fn wf(&self) -> bool {
        self.lexer.wf()
    }

    /// The source being parsed.
    pub closed spec fn input(&self) -> Seq<u8> {
        self.lexer.input()
    }

    /// How far parsing has come in the source.
    pub closed spec fn pos(&self) -> int {
        self.lexer.pos()
    }

    /// The instructions parsed so far.
    pub closed spec fn parsed(&self) -> Seq<InstrModel> {
        instrs_view(self.instructions@)
    }

    /// A parser over the tokens of `lexer`, with no instruction yet.
    pub fn new(lexer: Lexer) -> (r: Parser)
        requires
            lexer.wf(),
        ensures
            r.wf(),
            r.input() == lexer.input(),
            r.pos() == lexer.pos(),
            r.parsed() == Seq::<InstrModel>::empty(),
    {
        let r = Parser { lexer, instructions: Vec::new() };
        assert(r.parsed() =~= Seq::<InstrModel>::empty());
        r
    }

    fn push_instruction(&mut self, i: Instruction)
        ensures
            final(self).lexer == old(self).lexer,
            final(self).parsed() == old(self).parsed().push(i@),
    {
        self.instructions.push(i);
        assert(self.parsed() =~= old(self).parsed().push(i@));
    }

    /// Parses the whole source from where the parser stands: the instruction
    /// list, handed over, and the symbol table with the predefined names and
    /// every label bound. Stops at the first error.
    pub fn parse(&mut self) -> (r: Result<(Vec<Instruction>, SymbolTable), ParseError>)
        requires
            old(self).wf(),
        ensures
            final(self).wf(),
            final(self).input() == old(self).input(),
            r is Ok ==> final(self).parsed() == Seq::<InstrModel>::empty(),
            match (
                r,
                program(
                    old(self).input(),
                    old(self).pos(),
                    old(self).parsed(),
                    TableModel { bindings: predefined(), next: FIRST_VARIABLE as nat },
                ),
            ) {
                (Ok((v, st)), Ok((instrs, t))) => instrs_view(v@) == instrs && st.wf() && st@ == t,
                (Err(e), Err(e2)) => e@ == e2,
                _ => false,
            },
    {
        let mut symbol_table = SymbolTable::new();
        let ghost goal = program(
            old(self).input(),
            old(self).pos(),
            old(self).parsed(),
            TableModel { bindings: predefined(), next: FIRST_VARIABLE as nat },
        );
        loop
            invariant_except_break
                goal == program(self.input(), self.pos(), self.parsed(), symbol_table@),
            invariant
                self.wf(),
                symbol_table.wf(),
                self.input() == old(self).input(),
                goal == program(
                    old(self).input(),
                    old(self).pos(),
                    old(self).parsed(),
                    TableModel { bindings: predefined(), next: FIRST_VARIABLE as nat },
                ),
            ensures
                self.wf(),
                symbol_table.wf(),
                self.input() == old(self).input(),
                goal == Ok::<(Seq<InstrModel>, TableModel), ParseErrorModel>((self.parsed(), symbol_table@)),
            decreases self.input().len() - self.pos(),
        {
            let ghost p0 = self.pos();
            proof {
                lemma_next_token(self.input(), p0);
            }
            let token = self.lexer.lex_token();
            proof {
                lemma_next_token(self.input(), self.pos());
                lemma_a_operand(self.input(), self.pos());
                lemma_label_step(self.input(), self.pos(), self.parsed().len(), symbol_table@);
                lemma_c_instr(self.input(), token@, self.pos());
            }
            match token {
                Token::EOF => {
                    assert(goal == program(self.input(), p0, self.parsed(), symbol_table@));
                    break;
                },
                Token::NewLine => {},
                Token::At => {
                    self.parse_a_instruction()?;
                },
                Token::LParen => {
                    self.parse_label(&mut symbol_table)?;
                },
                tok => {
                    self.try_parse_c_instruction(tok)?;
                },
            }
        }
        let mut instructions: Vec<Instruction> = Vec::new();
        std::mem::swap(&mut instructions, &mut self.instructions);
        assert(self.parsed() =~= Seq::<InstrModel>::empty());
        Ok((instructions, symbol_table))
    }

    fn parse_label(&mut self, symbol_table: &mut SymbolTable) -> (r: Result<(), ParseError>)
        requires
            old(self).wf(),
            old(symbol_table).wf(),
        ensures
            final(self).wf(),
            final(symbol_table).wf(),
            final(self).input() == old(self).input(),
            final(self).parsed() == old(self).parsed(),
            match (
                r,
                label_step(old(self).input(), old(self).pos(), old(self).parsed().len(), old(symbol_table)@),
            ) {
                (Ok(()), Ok((t, p))) => final(symbol_table)@ == t && final(self).pos() == p,
                (Err(e), Err(e2)) => e@ == e2,
                _ => false,
            },
            r is Err ==> final(symbol_table)@ == old(symbol_table)@,
    {
        let token = self.lexer.lex_token();
        let symbol = match token {
            Token::ID(s) => s,
            _ => {
                return Err(ParseError::Syntax(token));
            },
        };
        let token = self.lexer.lex_token();
        match token {
            Token::RParen => {},
            _ => {
                return Err(ParseError::Syntax(token));
            },
        }
        let token = self.lexer.lex_token();
        match token {
            Token::NewLine => {},
            _ => {
                return Err(ParseError::Syntax(token));
            },
        }
        if symbol_table.lookup(&symbol).is_some() {
            return Err(ParseError::DuplicateLabel(symbol));
        }
        let address = self.instructions.len();
        if address > MAX_LABEL {
            return Err(ParseError::LabelOutOfRange);
        }
        symbol_table.insert(&symbol, address as u16);
        Ok(())
    }

    fn parse_a_instruction(&mut self) -> (r: Result<(), ParseError>)
        requires
            old(self).wf(),
        ensures
            final(self).wf(),
            final(self).input() == old(self).input(),
            r is Err ==> final(self).parsed() == old(self).parsed(),
            match (r, a_operand(old(self).input(), old(self).pos())) {
                (Ok(()), Ok((a, p))) => final(self).parsed() == old(self).parsed().push(
                    InstrModel::A(a),
                ) && final(self).pos() == p,
                (Err(e), Err(e2)) => e@ == e2,
                _ => false,
            },
    {
        let token = self.lexer.lex_token();
        let instr = match token {
            Token::Number(value) => AInstruction::Number(value),
            Token::ID(symbol) => AInstruction::Symbol(symbol),
            _ => {
                return Err(ParseError::Syntax(token));
            },
        };
        let token = self.lexer.lex_token();
        match token {
            Token::NewLine => {
                self.push_instruction(Instruction::A(instr));
                Ok(())
            },
            _ => Err(ParseError::Syntax(token)),
        }
    }

    #[verifier::rlimit(50)]
    fn parse_comp_dest_jump(&mut self, first: Token) -> (r: Result<(Token, String), ParseError>)
        requires
            old(self).wf(),
        ensures
            final(self).wf(),
            final(self).input() == old(self).input(),
            final(self).parsed() == old(self).parsed(),
            match (r, operand(old(self).input(), first@, old(self).pos(), Seq::empty())) {
                (Ok((t, s)), Ok((t2, s2, p))) => t@ == t2 && s@ == s2 && final(self).pos() == p,
                (Err(e), Err(e2)) => e@ == e2,
                _ => false,
            },
    {
        let mut string = String::new();
        let mut token = first;
        let ghost goal = operand(old(self).input(), first@, old(self).pos(), Seq::empty());
        assert(0 <= old(self).pos() <= old(self).input().len());
        loop
            invariant
                self.wf(),
                self.input() == old(self).input(),
                self.parsed() == old(self).parsed(),
                0 <= self.pos() <= self.input().len(),
                goal == operand(old(self).input(), first@, old(self).pos(), Seq::empty()),
                goal == operand(self.input(), token@, self.pos(), string@),
            decreases self.input().len() - self.pos(),
        {
            let ghost acc0 = string@;
            let ghost t0 = token@;
            match token {
                Token::Equal => {
                    assert(goal == Ok::<(TokenModel, Seq<char>, int), ParseErrorModel>(
                        (TokenModel::Equal, string@, self.pos()),
                    ));
                    return Ok((Token::Equal, string));
                },
                Token::Semi => {
                    assert(goal == Ok::<(TokenModel, Seq<char>, int), ParseErrorModel>(
                        (TokenModel::Semi, string@, self.pos()),
                    ));
                    return Ok((Token::Semi, string));
                },
                Token::NewLine => {
                    assert(goal == Ok::<(TokenModel, Seq<char>, int), ParseErrorModel>(
                        (TokenModel::NewLine, string@, self.pos()),
                    ));
                    return Ok((Token::NewLine, string));
                },
                Token::ID(value) => {
                    crate::text::push_text(&mut string, value.as_str());
                },
                Token::Number(value) => {
                    push_decimal(&mut string, value);
                },
                Token::Minus => {
                    push_char(&mut string, '-');
                },
                Token::Plus => {
                    push_char(&mut string, '+');
                },
                Token::Not => {
                    push_char(&mut string, '!');
                },
                Token::And => {
                    push_char(&mut string, '&');
                },
                Token::Or => {
                    push_char(&mut string, '|');
                },
                _ => {
                    return Err(ParseError::Syntax(token));
                },
            }
            proof {
                lemma_next_token(self.input(), self.pos());
            }
            assert(string@ =~= acc0 + piece(t0)->Some_0);
            token = self.lexer.lex_token();
            if let Token::EOF = token {
                assert(goal == Err::<(TokenModel, Seq<char>, int), ParseErrorModel>(
                    ParseErrorModel::Syntax(TokenModel::EOF),
                ));
                return Err(ParseError::Syntax(token));
            }
        }
    }

    fn parse_jump(&mut self) -> (r: Result<Jump, ParseError>)
        requires
            old(self).wf(),
        ensures
            final(self).wf(),
            final(self).input() == old(self).input(),
            final(self).parsed() == old(self).parsed(),
            match (r, jump_part(old(self).input(), old(self).pos())) {
                (Ok(j), Ok((j2, p))) => j == j2 && final(self).pos() == p,
                (Err(e), Err(e2)) => e@ == e2,
                _ => false,
            },
    {
        let token = self.lexer.lex_token();
        let jump = match token {
            Token::ID(string) => match Jump::from_mnemonic(&string) {
                Some(j) => j,
                None => {
                    return Err(ParseError::UnknownJump(string));
                },
            },
            _ => {
                return Err(ParseError::Syntax(token));
            },
        };
        let token = self.lexer.lex_token();
        match token {
            Token::NewLine => Ok(jump),
            _ => Err(ParseError::Syntax(token)),
        }
    }

    fn try_parse_c_instruction(&mut self, token: Token) -> (r: Result<(), ParseError>)
        requires
            old(self).wf(),
        ensures
            final(self).wf(),
            final(self).input() == old(self).input(),
            r is Err ==> final(self).parsed() == old(self).parsed(),
            match (r, c_instr(old(self).input(), token@, old(self).pos())) {
                (Ok(()), Ok((c, p))) => final(self).parsed() == old(self).parsed().push(c)
                    && final(self).pos() == p,
                (Err(e), Err(e2)) => e@ == e2,
                _ => false,
            },
    {
        let dest: Destination;
        let comp: String;
        let jump: Jump;
        let (stop, string) = self.parse_comp_dest_jump(token)?;
        match stop {
            Token::Equal => {
                dest = match Destination::from_mnemonic(&string) {
                    Some(d) => d,
                    None => {
                        return Err(ParseError::UnknownDestination(string));
                    },
                };
                let token = self.lexer.lex_token();
                let (stop2, string2) = self.parse_comp_dest_jump(token)?;
                match stop2 {
                    Token::NewLine => {
                        comp = string2;
                        jump = Jump::NULL;
                    },
                    Token::Semi => {
                        comp = string2;
                        jump = self.parse_jump()?;
                    },
                    _ => {
                        return Err(ParseError::Syntax(stop2));
                    },
                }
            },
            Token::Semi => {
                dest = Destination::NULL;
                comp = string;
                jump = self.parse_jump()?;
            },
            _ => {
                dest = Destination::NULL;
                comp = string;
                jump = Jump::NULL;
            },
        }
        self.push_instruction(Instruction::C(CInstruction::new(dest, comp, jump)));
        Ok(())
    }
}

} // verus!
