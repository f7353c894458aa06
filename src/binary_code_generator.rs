use vstd::prelude::*;

use crate::instructions::{
    dest_code, jump_code, instrs_view, AInstruction, AModel, CInstruction, InstrModel,
    Instruction,
};
use crate::symbol_table::{resolve, SymbolTable, TableModel};
use crate::text::same_text;

verus! {

/// The largest address an address instruction can carry (15 bits).
pub const MAX_ADDRESS: u16 = 32767;

/// Why a program could not be encoded.
#[derive(Debug, PartialEq, Eq)]
pub enum GenerateError {
    /// The computation mnemonic is not one of the known ones.
    UnknownComputation(String),
    /// An address does not fit in 15 bits.
    AddressOutOfRange,
}

/// The meaning of a generation error.
pub enum GenerateErrorModel {
    UnknownComputation(Seq<char>),
    AddressOutOfRange,
}

impl View for GenerateError {
    type V = GenerateErrorModel;

    open spec fn view(&self) -> GenerateErrorModel {
        match self {
            GenerateError::UnknownComputation(s) => GenerateErrorModel::UnknownComputation(s@),
            GenerateError::AddressOutOfRange => GenerateErrorModel::AddressOutOfRange,
        }
    }
}

/// The seven function bits of a computation mnemonic.
pub open spec fn comp_code(c: Seq<char>) -> Option<u16> {
    if c == "0"@ { Some(0b0101010u16) }
    else if c == "1"@ { Some(0b0111111u16) }
    else if c == "-1"@ { Some(0b0111010u16) }
    else if c == "D"@ { Some(0b0001100u16) }
    else if c == "A"@ { Some(0b0110000u16) }
    else if c == "!D"@ { Some(0b0001101u16) }
    else if c == "!A"@ { Some(0b0110001u16) }
    else if c == "-D"@ { Some(0b0001111u16) }
    else if c == "-A"@ { Some(0b0110011u16) }
    else if c == "D+1"@ { Some(0b0011111u16) }
    else if c == "A+1"@ { Some(0b0110111u16) }
    else if c == "D-1"@ { Some(0b0001110u16) }
    else if c == "A-1"@ { Some(0b0110010u16) }
    else if c == "D+A"@ { Some(0b0000010u16) }
    else if c == "D-A"@ { Some(0b0010011u16) }
    else if c == "A-D"@ { Some(0b0000111u16) }
    else if c == "D&A"@ { Some(0b0000000u16) }
    else if c == "D|A"@ { Some(0b0010101u16) }
    else if c == "M"@ { Some(0b1110000u16) }
    else if c == "!M"@ { Some(0b1110001u16) }
    else if c == "-M"@ { Some(0b1110011u16) }
    else if c == "M+1"@ { Some(0b1110111u16) }
    else if c == "M-1"@ { Some(0b1110010u16) }
    else if c == "D+M"@ { Some(0b1000010u16) }
    else if c == "D-M"@ { Some(0b1010011u16) }
    else if c == "M-D"@ { Some(0b1000111u16) }
    else if c == "D&M"@ { Some(0b1000000u16) }
    else if c == "D|M"@ { Some(0b1010101u16) }
    else { None }
}

/// The lowest `width` bits of `v` as ASCII `'0'`/`'1'`, most significant first.
pub open spec fn bits(v: nat, width: nat) -> Seq<u8>
    decreases width,
{
    if width == 0 {
        Seq::empty()
    } else {
        bits(v / 2, (width - 1) as nat).push(if v % 2 == 1 { 49u8 } else { 48u8 })
    }
}

/// One output line: the sixteen bits of the word and a newline.
pub open spec fn line(word: u16) -> Seq<u8> {
    bits(word as nat, 16).push(10u8)
}

/// The word of a compute instruction: the `111` prefix, then the function,
/// destination and jump fields.
pub open spec fn c_word(comp: u16, dest: u16, jump: u16) -> u16 {
    (0b111u16 << 13u16) | (comp << 6u16) | (dest << 3u16) | jump
}

/// The word of an address instruction, with the table after resolving its
/// name.
pub open spec fn a_word(a: AModel, t: TableModel) -> Result<(u16, TableModel), GenerateErrorModel> {
    match a {
        AModel::Number(n) => if n <= MAX_ADDRESS {
            Ok((n, t))
        } else {
            Err(GenerateErrorModel::AddressOutOfRange)
        },
        AModel::Symbol(name) => if !t.bindings.contains_key(name) && t.next > MAX_ADDRESS {
            Err(GenerateErrorModel::AddressOutOfRange)
        } else if resolve(t, name).0 <= MAX_ADDRESS {
            Ok(resolve(t, name))
        } else {
            Err(GenerateErrorModel::AddressOutOfRange)
        },
    }
}

/// The word of one instruction, with the table after it.
pub open spec fn word(i: InstrModel, t: TableModel) -> Result<(u16, TableModel), GenerateErrorModel> {
    match i {
        InstrModel::A(a) => a_word(a, t),
        InstrModel::C(d, c, j) => match comp_code(c) {
            Some(f) => Ok((c_word(f, dest_code(d), jump_code(j)), t)),
            None => Err(GenerateErrorModel::UnknownComputation(c)),
        },
    }
}

/// The encoded program: one line per instruction, in order, stopping at the
/// first instruction that cannot be encoded; with the final table.
pub open spec fn encode(instrs: Seq<InstrModel>, t: TableModel) -> Result<(Seq<u8>, TableModel), GenerateErrorModel>
    decreases instrs.len(),
{
    if instrs.len() == 0 {
        Ok((Seq::empty(), t))
    } else {
        match word(instrs[0], t) {
            Err(e) => Err(e),
            Ok((w, t1)) => match encode(instrs.drop_first(), t1) {
                Err(e) => Err(e),
                Ok((rest, t2)) => Ok((line(w) + rest, t2)),
            },
        }
    }
}

/// The table as it stands when encoding stops at the first instruction that
/// cannot be encoded: the one reached after the instructions before it, with
/// none of the later names resolved.
pub open spec fn table_at_failure(instrs: Seq<InstrModel>, t: TableModel) -> TableModel
    decreases instrs.len(),
{
    if instrs.len() == 0 {
        t
    } else {
        match word(instrs[0], t) {
            Err(_) => t,
            Ok((_, t1)) => table_at_failure(instrs.drop_first(), t1),
        }
    }
}

/// `r` with `out` put in front of its output.
pub open spec fn after(out: Seq<u8>, r: Result<(Seq<u8>, TableModel), GenerateErrorModel>) -> Result<(Seq<u8>, TableModel), GenerateErrorModel> {
    match r {
        Err(e) => Err(e),
        Ok((o, t)) => Ok((out + o, t)),
    }
}

/// Turns a parsed program and its symbol table into machine code.
pub struct BinaryCodeGenerator {
    instructions: Vec<Instruction>,
    symbol_table: SymbolTable,
}

impl BinaryCodeGenerator {
    pub closed spec fn wf(&self) -> bool {
        self.symbol_table.wf()
    }

    /// The instructions to encode.
    pub closed spec fn program(&self) -> Seq<InstrModel> {
        instrs_view(self.instructions@)
    }

    /// The symbol table as it stands.
    pub closed spec fn table(&self) -> TableModel {
        self.symbol_table@
    }

    pub fn new(instructions: Vec<Instruction>, symbol_table: SymbolTable) -> (r: BinaryCodeGenerator)
        requires
            symbol_table.wf(),
        ensures
            r.wf(),
            r.program() == instrs_view(instructions@),
            r.table() == symbol_table@,
    {
        BinaryCodeGenerator { instructions, symbol_table }
    }

    /// Encodes every instruction in order: one line of sixteen `0`/`1`
    /// characters and a newline each; variables are given addresses as they
    /// are first met. Fails at the first instruction that cannot be encoded.
    pub fn generate(&mut self) -> (r: Result<Vec<u8>, GenerateError>)
        requires
            old(self).wf(),
        ensures
            final(self).wf(),
            final(self).program() == old(self).program(),
            match (r, encode(old(self).program(), old(self).table())) {
                (Ok(out), Ok((o, t))) => out@ == o && final(self).table() == t,
                (Err(e), Err(e2)) => e@ == e2 && final(self).table() == table_at_failure(
                    old(self).program(),
                    old(self).table(),
                ),
                _ => false,
            },
    {
        let mut out: Vec<u8> = Vec::new();
        let mut i: usize = 0;
        let ghost all = instrs_view(self.instructions@);
        let ghost t0 = self.symbol_table@;
        proof {
            assert(all.skip(0) =~= all);
            match encode(all, t0) {
                Ok((o, t)) => assert(Seq::<u8>::empty() + o =~= o),
                Err(_) => {},
            }
        }
        while i < self.instructions.len()
            invariant
                self.wf(),
                self.instructions@ == old(self).instructions@,
                t0 == old(self).table(),
                all == instrs_view(self.instructions@),
                i <= all.len(),
                all.len() == self.instructions@.len(),
                encode(all, t0) == after(out@, encode(all.skip(i as int), self.symbol_table@)),
                table_at_failure(all, t0) == table_at_failure(all.skip(i as int), self.symbol_table@),
            decreases all.len() - i,
        {
            let ghost t = self.symbol_table@;
            proof {
                assert(all.skip(i as int).drop_first() =~= all.skip(i + 1));
                assert(all.skip(i as int)[0] == self.instructions@[i as int]@);
            }
            let w = match &self.instructions[i] {
                Instruction::A(a) => generate_a_instruction(&mut self.symbol_table, a),
                Instruction::C(c) => generate_c_instruction(c),
            };
            match w {
                Err(e) => {
                    return Err(e);
                },
                Ok(w) => {
                    let ghost before = out@;
                    push_bits(&mut out, w as u32, 16);
                    out.push(10u8);
                    proof {
                        assert(out@ =~= before + line(w));
                        assert(before + line(w) + encode(all.skip(i + 1), self.symbol_table@)->Ok_0.0
                            =~= before + (line(w) + encode(all.skip(i + 1), self.symbol_table@)->Ok_0.0));
                    }
                },
            }
            i = i + 1;
        }
        proof {
            assert(all.skip(i as int) =~= Seq::<InstrModel>::empty());
            assert(out@ + Seq::<u8>::empty() =~= out@);
        }
        Ok(out)
    }
}

/// Appends the lowest `width` bits of `v`, most significant first.
fn push_bits(out: &mut Vec<u8>, v: u32, width: u32)
    ensures
        final(out)@ == old(out)@ + bits(v as nat, width as nat),
    decreases width,
{
    if width == 0 {
        assert(old(out)@ + Seq::<u8>::empty() =~= old(out)@);
    } else {
        push_bits(out, v / 2, width - 1);
        out.push(if v % 2 == 1 { 49u8 } else { 48u8 });
        let ghost b: u8 = if v % 2 == 1 { 49u8 } else { 48u8 };
        assert(old(out)@ + bits((v / 2) as nat, (width - 1) as nat) + seq![b]
            =~= old(out)@ + bits((v / 2) as nat, (width - 1) as nat).push(b));
    }
}

/// The word of an address instruction; a name is resolved, and bound to a
/// new variable address when it has none.
fn generate_a_instruction(symbol_table: &mut SymbolTable, instr: &AInstruction) -> (r: Result<u16, GenerateError>)
    requires
        old(symbol_table).wf(),
    ensures
        final(symbol_table).wf(),
        r is Err ==> final(symbol_table)@ == old(symbol_table)@,
        match (r, a_word(instr@, old(symbol_table)@)) {
            (Ok(w), Ok((w2, t))) => w == w2 && final(symbol_table)@ == t,
            (Err(e), Err(e2)) => e@ == e2,
            _ => false,
        },
{
    let number = match instr {
        AInstruction::Number(n) => *n,
        AInstruction::Symbol(s) => {
            if symbol_table.lookup(s).is_none() && symbol_table.next_free() > MAX_ADDRESS as u32 {
                return Err(GenerateError::AddressOutOfRange);
            }
            symbol_table.get(s)
        },
    };
    if number > MAX_ADDRESS {
        return Err(GenerateError::AddressOutOfRange);
    }
    Ok(number)
}

/// The word of a compute instruction.
fn generate_c_instruction(instr: &CInstruction) -> (r: Result<u16, GenerateError>)
    ensures
        match (r, comp_code(instr.comp@)) {
            (Ok(w), Some(f)) => w == c_word(f, dest_code(instr.dest), jump_code(instr.jump)),
            (Err(e), None) => e@ == GenerateErrorModel::UnknownComputation(instr.comp@),
            _ => false,
        },
{
    let f = match comp_bits(&instr.comp) {
        Some(f) => f,
        None => {
            return Err(GenerateError::UnknownComputation(instr.comp.clone()));
        },
    };
    let d = instr.dest.code();
    let j = instr.jump.code();
    Ok((0b111u16 << 13u16) | (f << 6u16) | (d << 3u16) | j)
}

/// The function bits of a computation mnemonic.
fn comp_bits(c: &String) -> (r: Option<u16>)
    ensures
        r == comp_code(c@),
{
    if same_text(c, "0") { Some(0b0101010u16) }
    else if same_text(c, "1") { Some(0b0111111u16) }
    else if same_text(c, "-1") { Some(0b0111010u16) }
    else if same_text(c, "D") { Some(0b0001100u16) }
    else if same_text(c, "A") { Some(0b0110000u16) }
    else if same_text(c, "!D") { Some(0b0001101u16) }
    else if same_text(c, "!A") { Some(0b0110001u16) }
    else if same_text(c, "-D") { Some(0b0001111u16) }
    else if same_text(c, "-A") { Some(0b0110011u16) }
    else if same_text(c, "D+1") { Some(0b0011111u16) }
    else if same_text(c, "A+1") { Some(0b0110111u16) }
    else if same_text(c, "D-1") { Some(0b0001110u16) }
    else if same_text(c, "A-1") { Some(0b0110010u16) }
    else if same_text(c, "D+A") { Some(0b0000010u16) }
    else if same_text(c, "D-A") { Some(0b0010011u16) }
    else if same_text(c, "A-D") { Some(0b0000111u16) }
    else if same_text(c, "D&A") { Some(0b0000000u16) }
    else if same_text(c, "D|A") { Some(0b0010101u16) }
    else if same_text(c, "M") { Some(0b1110000u16) }
    else if same_text(c, "!M") { Some(0b1110001u16) }
    else if same_text(c, "-M") { Some(0b1110011u16) }
    else if same_text(c, "M+1") { Some(0b1110111u16) }
    else if same_text(c, "M-1") { Some(0b1110010u16) }
    else if same_text(c, "D+M") { Some(0b1000010u16) }
    else if same_text(c, "D-M") { Some(0b1010011u16) }
    else if same_text(c, "M-D") { Some(0b1000111u16) }
    else if same_text(c, "D&M") { Some(0b1000000u16) }
    else if same_text(c, "D|M") { Some(0b1010101u16) }
    else { None }
}

pub proof fn lemma_bits(v: nat, width: nat)
    ensures
        bits(v, width).len() == width,
        forall|j: int| 0 <= j < width ==> #[trigger] bits(v, width)[j] == 48u8 || bits(v, width)[j] == 49u8,
    decreases width,
{
    if width > 0 {
        lemma_bits(v / 2, (width - 1) as nat);
    }
}

/// A line is seventeen bytes, and only its last one is a newline.
pub proof fn lemma_line(w: u16)
    ensures
        line(w).len() == 17,
        forall|j: int| 0 <= j < 17 ==> (#[trigger] line(w)[j] == 10u8 <==> j == 16),
        forall|j: int| 0 <= j < 16 ==> #[trigger] line(w)[j] == 48u8 || line(w)[j] == 49u8,
{
    lemma_bits(w as nat, 16);
}

/// Each instruction gives exactly one output line: the output is seventeen
/// bytes per instruction, a byte is a newline exactly when it ends one of
/// those seventeen-byte lines, and every other byte is `0` or `1`.
pub proof fn lemma_one_line_per_instruction(instrs: Seq<InstrModel>, t: TableModel)
    requires
        encode(instrs, t) is Ok,
    ensures
        encode(instrs, t)->Ok_0.0.len() == 17 * instrs.len(),
        forall|k: int, j: int|
            0 <= k < instrs.len() && 0 <= j < 17 ==> (#[trigger] encode(instrs, t)->Ok_0.0[17 * k
                + j] == 10u8 <==> j == 16),
        forall|k: int, j: int|
            0 <= k < instrs.len() && 0 <= j < 16 ==> (#[trigger] encode(instrs, t)->Ok_0.0[17 * k
                + j] == 48u8 || encode(instrs, t)->Ok_0.0[17 * k + j] == 49u8),
    decreases instrs.len(),
{
    if instrs.len() > 0 {
        let (w, t1) = word(instrs[0], t)->Ok_0;
        let rest = instrs.drop_first();
        lemma_one_line_per_instruction(rest, t1);
        lemma_line(w);
        let o = encode(instrs, t)->Ok_0.0;
        let ro = encode(rest, t1)->Ok_0.0;
        assert(o == line(w) + ro);
        assert forall|k: int, j: int|
            0 <= k < instrs.len() && 0 <= j < 17 implies (#[trigger] o[17 * k + j] == 10u8
                <==> j == 16) by {
            if k > 0 {
                assert(o[17 * k + j] == ro[17 * (k - 1) + j]);
            }
        }
        assert forall|k: int, j: int|
            0 <= k < instrs.len() && 0 <= j < 16 implies (#[trigger] o[17 * k + j] == 48u8
                || o[17 * k + j] == 49u8) by {
            if k > 0 {
                assert(o[17 * k + j] == ro[17 * (k - 1) + j]);
            }
        }
    }
}

/// Encoding only adds bindings, and every symbolic address instruction is
/// encoded as the address its name has in the final table: the line of a
/// name is the same wherever it occurs, and a name bound beforehand keeps its
/// address.
pub proof fn lemma_symbol_lines(instrs: Seq<InstrModel>, t: TableModel)
    requires
        encode(instrs, t) is Ok,
    ensures
        forall|name: Seq<char>| #[trigger]
            t.bindings.contains_key(name) ==> encode(instrs, t)->Ok_0.1.bindings.contains_key(name)
                && encode(instrs, t)->Ok_0.1.bindings[name] == t.bindings[name],
        forall|k: int|
            0 <= k < instrs.len() && (#[trigger] instrs[k]) is A && instrs[k]->A_0 is Symbol ==> {
                let name = instrs[k]->A_0->Symbol_0;
                let (o, t2) = encode(instrs, t)->Ok_0;
                t2.bindings.contains_key(name) && o.subrange(17 * k, 17 * k + 17) == line(
                    t2.bindings[name],
                )
            },
    decreases instrs.len(),
{
    if instrs.len() > 0 {
        let (w, t1) = word(instrs[0], t)->Ok_0;
        let rest = instrs.drop_first();
        lemma_symbol_lines(rest, t1);
        lemma_one_line_per_instruction(rest, t1);
        lemma_line(w);
        let (o, t2) = encode(instrs, t)->Ok_0;
        let ro = encode(rest, t1)->Ok_0.0;
        assert(o == line(w) + ro);
        assert forall|name: Seq<char>| #[trigger] t.bindings.contains_key(name) implies t1.bindings.contains_key(name)
            && t1.bindings[name] == t.bindings[name] by {}
        assert forall|k: int|
            0 <= k < instrs.len() && (#[trigger] instrs[k]) is A && instrs[k]->A_0 is Symbol implies {
                let name = instrs[k]->A_0->Symbol_0;
                t2.bindings.contains_key(name) && o.subrange(17 * k, 17 * k + 17) == line(
                    t2.bindings[name],
                )
            } by {
            let name = instrs[k]->A_0->Symbol_0;
            if k == 0 {
                assert(t1.bindings.contains_key(name) && t1.bindings[name] == w);
                assert(o.subrange(0, 17) =~= line(w));
            } else {
                assert(rest[k - 1] == instrs[k]);
                assert(o.subrange(17 * k, 17 * k + 17) =~= ro.subrange(
                    17 * (k - 1),
                    17 * (k - 1) + 17,
                ));
            }
        }
    }
}

} // verus!
