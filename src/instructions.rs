use vstd::prelude::*;

use crate::text::same_text;

verus! {

/// Which registers a computation's result is stored into.
#[derive(Clone, Copy, Debug, PartialEq, Eq, Structural)]
pub enum Destination {
    NULL,
    M,
    D,
    DM,
    A,
    AM,
    AD,
    ADM,
}

/// The condition under which a compute instruction jumps.
#[derive(Clone, Copy, Debug, PartialEq, Eq, Structural)]
pub enum Jump {
    NULL,
    JGT,
    JEQ,
    JGE,
    JLT,
    JNE,
    JLE,
    JMP,
}

/// An address instruction's operand: a literal or a name resolved later.
#[derive(Debug)]
pub enum AInstruction {
    Number(u16),
    Symbol(String),
}

/// A compute instruction: destination, computation mnemonic and jump.
#[derive(Debug)]
pub struct CInstruction {
    pub dest: Destination,
    pub comp: String,
    pub jump: Jump,
}

/// One instruction of a parsed program.
#[derive(Debug)]
pub enum Instruction {
    A(AInstruction),
    C(CInstruction),
}

/// The meaning of an address operand, with the name as characters.
pub enum AModel {
    Number(u16),
    Symbol(Seq<char>),
}

/// The meaning of an instruction, with names and mnemonics as characters.
pub enum InstrModel {
    A(AModel),
    C(Destination, Seq<char>, Jump),
}

impl View for AInstruction {
    type V = AModel;

    open spec fn view(&self) -> AModel {
        match self {
            AInstruction::Number(n) => AModel::Number(*n),
            AInstruction::Symbol(s) => AModel::Symbol(s@),
        }
    }
}

impl View for Instruction {
    type V = InstrModel;

    open spec fn view(&self) -> InstrModel {
        match self {
            Instruction::A(a) => InstrModel::A(a@),
            Instruction::C(c) => InstrModel::C(c.dest, c.comp@, c.jump),
        }
    }
}

/// The views of a list of instructions.
pub open spec fn instrs_view(v: Seq<Instruction>) -> Seq<InstrModel> {
    v.map_values(|i: Instruction| i@)
}

/// The destination a mnemonic names; a two-register set may be written in
/// either order.
pub open spec fn dest_of(s: Seq<char>) -> Option<Destination> {
    if s == "M"@ {
        Some(Destination::M)
    } else if s == "D"@ {
        Some(Destination::D)
    } else if s == "DM"@ || s == "MD"@ {
        Some(Destination::DM)
    } else if s == "A"@ {
        Some(Destination::A)
    } else if s == "AM"@ || s == "MA"@ {
        Some(Destination::AM)
    } else if s == "AD"@ || s == "DA"@ {
        Some(Destination::AD)
    } else if s == "ADM"@ {
        Some(Destination::ADM)
    } else {
        None
    }
}

/// The jump condition a mnemonic names.
pub open spec fn jump_of(s: Seq<char>) -> Option<Jump> {
    if s == "JGT"@ {
        Some(Jump::JGT)
    } else if s == "JEQ"@ {
        Some(Jump::JEQ)
    } else if s == "JGE"@ {
        Some(Jump::JGE)
    } else if s == "JLT"@ {
        Some(Jump::JLT)
    } else if s == "JNE"@ {
        Some(Jump::JNE)
    } else if s == "JLE"@ {
        Some(Jump::JLE)
    } else if s == "JMP"@ {
        Some(Jump::JMP)
    } else {
        None
    }
}

/// The three destination bits.
pub open spec fn dest_code(d: Destination) -> u16 {
    match d {
        Destination::NULL => 0b000,
        Destination::M => 0b001,
        Destination::D => 0b010,
        Destination::DM => 0b011,
        Destination::A => 0b100,
        Destination::AM => 0b101,
        Destination::AD => 0b110,
        Destination::ADM => 0b111,
    }
}

/// The three jump bits.
pub open spec fn jump_code(j: Jump) -> u16 {
    match j {
        Jump::NULL => 0b000,
        Jump::JGT => 0b001,
        Jump::JEQ => 0b010,
        Jump::JGE => 0b011,
        Jump::JLT => 0b100,
        Jump::JNE => 0b101,
        Jump::JLE => 0b110,
        Jump::JMP => 0b111,
    }
}

/// The order of the registers in a two-register destination does not matter.
pub proof fn lemma_destination_order()
    ensures
        dest_of("MD"@) == dest_of("DM"@),
        dest_of("MD"@) == Some(Destination::DM),
        dest_of("MA"@) == dest_of("AM"@),
        dest_of("MA"@) == Some(Destination::AM),
        dest_of("DA"@) == dest_of("AD"@),
        dest_of("DA"@) == Some(Destination::AD),
{
    reveal_strlit("M");
    reveal_strlit("D");
    reveal_strlit("A");
    reveal_strlit("MD");
    reveal_strlit("DM");
    reveal_strlit("MA");
    reveal_strlit("AM");
    reveal_strlit("DA");
    reveal_strlit("AD");
    assert("MD"@.len() == 2 && "MD"@[0] == 'M' && "MD"@[1] == 'D');
    assert("DM"@.len() == 2 && "DM"@[0] == 'D' && "DM"@[1] == 'M');
    assert("MA"@.len() == 2 && "MA"@[0] == 'M' && "MA"@[1] == 'A');
    assert("AM"@.len() == 2 && "AM"@[0] == 'A' && "AM"@[1] == 'M');
    assert("DA"@.len() == 2 && "DA"@[0] == 'D' && "DA"@[1] == 'A');
    assert("AD"@.len() == 2 && "AD"@[0] == 'A' && "AD"@[1] == 'D');
    assert("M"@.len() == 1 && "D"@.len() == 1 && "A"@.len() == 1);
    assert("MD"@ != "M"@);
    assert("MD"@ != "D"@);
    assert("MA"@ != "M"@);
    assert("MA"@ != "D"@);
    assert("MA"@ != "DM"@);
    assert("MA"@ != "MD"@);
    assert("MA"@ != "A"@);
    assert("DA"@ != "M"@);
    assert("DA"@ != "D"@);
    assert("DA"@ != "DM"@);
    assert("DA"@ != "MD"@);
    assert("DA"@ != "A"@);
    assert("DA"@ != "AM"@);
    assert("DA"@ != "MA"@);
    assert("AM"@ != "M"@);
    assert("AM"@ != "D"@);
    assert("AM"@ != "DM"@);
    assert("AM"@ != "MD"@);
    assert("AM"@ != "A"@);
    assert("AD"@ != "M"@);
    assert("AD"@ != "D"@);
    assert("AD"@ != "DM"@);
    assert("AD"@ != "MD"@);
    assert("AD"@ != "A"@);
    assert("AD"@ != "AM"@);
    assert("AD"@ != "MA"@);
    assert("DM"@ != "M"@);
    assert("DM"@ != "D"@);
}

impl Destination {
    /// The destination named by `s`, or `None` for an unknown mnemonic.
    pub fn from_mnemonic(s: &String) -> (r: Option<Destination>)
        ensures
            r == dest_of(s@),
    {
        if same_text(s, "M") {
            Some(Destination::M)
        } else if same_text(s, "D") {
            Some(Destination::D)
        } else if same_text(s, "DM") || same_text(s, "MD") {
            Some(Destination::DM)
        } else if same_text(s, "A") {
            Some(Destination::A)
        } else if same_text(s, "AM") || same_text(s, "MA") {
            Some(Destination::AM)
        } else if same_text(s, "AD") || same_text(s, "DA") {
            Some(Destination::AD)
        } else if same_text(s, "ADM") {
            Some(Destination::ADM)
        } else {
            None
        }
    }

    /// The three destination bits.
    pub fn code(self) -> (r: u16)
        ensures
            r == dest_code(self),
    {
        match self {
            Destination::NULL => 0b000,
            Destination::M => 0b001,
            Destination::D => 0b010,
            Destination::DM => 0b011,
            Destination::A => 0b100,
            Destination::AM => 0b101,
            Destination::AD => 0b110,
            Destination::ADM => 0b111,
        }
    }
}

impl Jump {
    /// The jump condition named by `s`, or `None` for an unknown mnemonic.
    pub fn from_mnemonic(s: &String) -> (r: Option<Jump>)
        ensures
            r == jump_of(s@),
    {
        if same_text(s, "JGT") {
            Some(Jump::JGT)
        } else if same_text(s, "JEQ") {
            Some(Jump::JEQ)
        } else if same_text(s, "JGE") {
            Some(Jump::JGE)
        } else if same_text(s, "JLT") {
            Some(Jump::JLT)
        } else if same_text(s, "JNE") {
            Some(Jump::JNE)
        } else if same_text(s, "JLE") {
            Some(Jump::JLE)
        } else if same_text(s, "JMP") {
            Some(Jump::JMP)
        } else {
            None
        }
    }

    /// The three jump bits.
    pub fn code(self) -> (r: u16)
        ensures
            r == jump_code(self),
    {
        match self {
            Jump::NULL => 0b000,
            Jump::JGT => 0b001,
            Jump::JEQ => 0b010,
            Jump::JGE => 0b011,
            Jump::JLT => 0b100,
            Jump::JNE => 0b101,
            Jump::JLE => 0b110,
            Jump::JMP => 0b111,
        }
    }
}

impl CInstruction {
    pub fn new(dest: Destination, comp: String, jump: Jump) -> (r: CInstruction)
        ensures
            r.dest == dest,
            r.comp == comp,
            r.jump == jump,
    {
        CInstruction { dest, comp, jump }
    }
}

} // verus!
