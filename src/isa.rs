use vstd::prelude::*;

verus! {

/// The upper ends of the register ranges that operands may address.
#[derive(Clone, Copy, PartialEq, Eq, Structural, Debug)]
pub enum RegisterId {
    R7,
    SP,
    C0,
    C1,
}

impl RegisterId {
    pub open spec fn index(self) -> u16 {
        match self {
            RegisterId::R7 => 7,
            RegisterId::SP => 8,
            RegisterId::C0 => 9,
            RegisterId::C1 => 10,
        }
    }

    pub fn to_u16(&self) -> (r: u16)
        ensures
            r == self.index(),
    {
        match self {
            RegisterId::R7 => 7,
            RegisterId::SP => 8,
            RegisterId::C0 => 9,
            RegisterId::C1 => 10,
        }
    }
}

/// Number of addressable registers: `R0..R7`, `SP`, `C0`, `C1`.
pub const REGISTER_COUNT: usize = 11;

/// True when `reg` lies in the range that ends at `ceil`.
pub fn check_register_range(reg: u16, ceil: RegisterId) -> (r: bool)
    ensures
        r == (reg <= ceil.index()),
{
    reg <= ceil.to_u16()
}

/// The instruction kinds, one per row of the opcode table.
#[derive(Clone, Copy, PartialEq, Eq, Structural, Debug)]
pub enum Instruction {
    NOP,
    AND,
    NOT,
    ADD,
    SUB,
    INC,
    DEC,
    LDB,
    LDW,
    MOV,
    LDI,
    STB,
    STW,
    JMP,
    JNZ,
    SHR,
    SHL,
    TEST,
    SETF,
    CLRF,
}

/// The opcode class: the top nibble of a word.
pub open spec fn class_of(w: u16) -> u16 {
    w >> 12
}

/// The sub-opcode: the bottom two bits of a word.
pub open spec fn sub_of(w: u16) -> u16 {
    w & 3
}

/// Operand field `X`, bits 11..8.
pub open spec fn field_x(w: u16) -> u16 {
    (w & 0x0F00) >> 8
}

/// Operand field `Y`, bits 7..4.
pub open spec fn field_y(w: u16) -> u16 {
    (w & 0x00F0) >> 4
}

/// The low byte, the immediate of `ldi`.
pub open spec fn field_nn(w: u16) -> u16 {
    w & 0x00FF
}

/// Which instruction a word selects, by its class and sub-opcode.
pub open spec fn decode_spec(w: u16) -> Option<Instruction> {
    let c = class_of(w);
    let s = sub_of(w);
    if c == 0 && s == 0 {
        Some(Instruction::NOP)
    } else if c == 1 && s == 0 {
        Some(Instruction::AND)
    } else if c == 1 && s == 1 {
        Some(Instruction::NOT)
    } else if c == 2 && s == 0 {
        Some(Instruction::ADD)
    } else if c == 2 && s == 1 {
        Some(Instruction::SUB)
    } else if c == 2 && s == 2 {
        Some(Instruction::INC)
    } else if c == 2 && s == 3 {
        Some(Instruction::DEC)
    } else if c == 3 && s == 0 {
        Some(Instruction::LDB)
    } else if c == 3 && s == 1 {
        Some(Instruction::LDW)
    } else if c == 3 && s == 2 {
        Some(Instruction::MOV)
    } else if c == 4 {
        Some(Instruction::LDI)
    } else if c == 5 && s == 0 {
        Some(Instruction::STB)
    } else if c == 5 && s == 1 {
        Some(Instruction::STW)
    } else if c == 6 && s == 0 {
        Some(Instruction::JMP)
    } else if c == 6 && s == 1 {
        Some(Instruction::JNZ)
    } else if c == 7 && s == 0 {
        Some(Instruction::SHR)
    } else if c == 7 && s == 1 {
        Some(Instruction::SHL)
    } else if c == 8 && s == 0 {
        Some(Instruction::TEST)
    } else if c == 8 && s == 1 {
        Some(Instruction::SETF)
    } else if c == 8 && s == 2 {
        Some(Instruction::CLRF)
    } else {
        None
    }
}

/// The word of an instruction with all operand fields zero.
pub open spec fn base_word(i: Instruction) -> u16 {
    match i {
        Instruction::NOP => 0x0000,
        Instruction::AND => 0x1000,
        Instruction::NOT => 0x1001,
        Instruction::ADD => 0x2000,
        Instruction::SUB => 0x2001,
        Instruction::INC => 0x2002,
        Instruction::DEC => 0x2003,
        Instruction::LDB => 0x3000,
        Instruction::LDW => 0x3001,
        Instruction::MOV => 0x3002,
        Instruction::LDI => 0x4000,
        Instruction::STB => 0x5000,
        Instruction::STW => 0x5001,
        Instruction::JMP => 0x6000,
        Instruction::JNZ => 0x6001,
        Instruction::SHR => 0x7000,
        Instruction::SHL => 0x7001,
        Instruction::TEST => 0x8000,
        Instruction::SETF => 0x8001,
        Instruction::CLRF => 0x8002,
    }
}

/// The bits that carry operands in an instruction's word.
pub open spec fn operand_mask(i: Instruction) -> u16 {
    match i {
        Instruction::NOP => 0x0000,
        Instruction::NOT | Instruction::INC | Instruction::DEC | Instruction::JMP => 0x0F00,
        Instruction::TEST | Instruction::SETF | Instruction::CLRF => 0x0F00,
        Instruction::LDI => 0x0FFF,
        _ => 0x0FF0,
    }
}

/// The register ranges that an instruction admits for the fields `X` (bits 11..8)
/// and `Y` (bits 7..4) of its word.
pub open spec fn operands_ok(i: Instruction, x: u16, y: u16) -> bool {
    match i {
        Instruction::AND | Instruction::ADD | Instruction::SUB => x <= 7 && y <= 7,
        Instruction::NOT | Instruction::LDI | Instruction::SHR | Instruction::SHL => x <= 7,
        Instruction::INC | Instruction::DEC | Instruction::JMP => x <= 8,
        Instruction::LDB | Instruction::LDW => x <= 7 && y <= 8,
        Instruction::MOV => x <= 10 && y <= 10,
        Instruction::STB | Instruction::STW => x <= 8 && y <= 7,
        Instruction::JNZ => x <= 8 && y <= 7,
        Instruction::NOP | Instruction::TEST | Instruction::SETF | Instruction::CLRF => true,
    }
}

/// A well-formed instruction word: it decodes, holds nothing beyond its base
/// opcode and its operand fields, and its register fields are in range.
pub open spec fn valid_word(w: u16) -> bool {
    match decode_spec(w) {
        Some(i) => w == base_word(i) | (w & operand_mask(i)) && operands_ok(i, field_x(w), field_y(w)),
        None => false,
    }
}

proof fn lemma_decode_by_mask(w: u16)
    ensures
        (w & 0xF003) == ((w >> 12) << 12) | (w & 3),
        w >> 12 <= 15,
        (w & 0xF003) >> 12 == w >> 12,
        (w & 0xF003) & 3 == w & 3,
{
    assert((w & 0xF003) == ((w >> 12) << 12) | (w & 3)) by (bit_vector);
    assert(w >> 12 <= 15) by (bit_vector);
    assert((w & 0xF003) >> 12 == w >> 12) by (bit_vector);
    assert((w & 0xF003) & 3 == w & 3) by (bit_vector);
}

/// Selects the instruction of a word: the word masked by `0xF003`, with the
/// whole `0x4000` class taken as `ldi`.
pub fn decode_opcode(opcode: u16) -> (r: Option<Instruction>)
    ensures
        r == decode_spec(opcode),
{
    proof {
        lemma_decode_by_mask(opcode);
    }
    let m: u16 = opcode & 0xF003;
    assert(m == ((opcode >> 12) << 12) | (opcode & 3));
    let c: u16 = m >> 12;
    let s: u16 = m & 3;
    assert(c == class_of(opcode) && s == sub_of(opcode));
    if c == 4 {
        return Some(Instruction::LDI);
    }
    match (c, s) {
        (0, 0) => Some(Instruction::NOP),
        (1, 0) => Some(Instruction::AND),
        (1, 1) => Some(Instruction::NOT),
        (2, 0) => Some(Instruction::ADD),
        (2, 1) => Some(Instruction::SUB),
        (2, 2) => Some(Instruction::INC),
        (2, 3) => Some(Instruction::DEC),
        (3, 0) => Some(Instruction::LDB),
        (3, 1) => Some(Instruction::LDW),
        (3, 2) => Some(Instruction::MOV),
        (5, 0) => Some(Instruction::STB),
        (5, 1) => Some(Instruction::STW),
        (6, 0) => Some(Instruction::JMP),
        (6, 1) => Some(Instruction::JNZ),
        (7, 0) => Some(Instruction::SHR),
        (7, 1) => Some(Instruction::SHL),
        (8, 0) => Some(Instruction::TEST),
        (8, 1) => Some(Instruction::SETF),
        (8, 2) => Some(Instruction::CLRF),
        _ => None,
    }
}

} // verus!
