use vstd::prelude::*;

verus! {

/// Number of distinct opcodes.
pub const OPCODE_COUNT: u8 = 27;

/// One opcode of the soup's instruction set.
#[derive(Debug, Clone, Copy, PartialEq, Eq, Structural)]
pub enum Instruction {
    /// No operation; template marker zero.
    Nop0,
    /// No operation; template marker one.
    Nop1,
    /// Execute the next instruction only when `cx` is zero.
    IfCZ,
    /// Jump backward to the complement of the following template.
    JmpB,
    /// Jump forward to the complement of the following template.
    JmpF,
    /// Push the return address and jump forward to a template.
    Call,
    /// Return to the address on top of the stack.
    Ret,
    /// Load the opcode at `address + cx mod size` into `dx`.
    MovDC,
    /// Store opcode `dx mod 27` at `address + cx mod size`. Writes are confined
    /// to the home region; since the target is reduced modulo the size, it
    /// always lies there, so this instruction never counts a bounds fault.
    MovCD,
    /// Load the instruction pointer into `ax`.
    Adr,
    /// Load the address of the nearest template backward into `ax`.
    AdrB,
    /// Load the address of the nearest template forward into `ax`.
    AdrF,
    /// Increment `ax`.
    IncA,
    /// Increment `bx`.
    IncB,
    /// Increment `cx`.
    IncC,
    /// Decrement `cx`.
    DecC,
    /// Request a block of `ax` cells.
    MallocA,
    /// Request reproduction.
    Divide,
    /// Push `ax`.
    PushA,
    /// Push `bx`.
    PushB,
    /// Push `cx`.
    PushC,
    /// Push `dx`.
    PushD,
    /// Pop into `ax`.
    PopA,
    /// Pop into `bx`.
    PopB,
    /// Pop into `cx`.
    PopC,
    /// Pop into `dx`.
    PopD,
    /// Kill the organism.
    Halt,
}

impl Instruction {
    /// The integer code of an opcode, in `0..27`.
    pub open spec fn code(self) -> u8 {
        match self {
            Instruction::Nop0 => 0u8,
            Instruction::Nop1 => 1u8,
            Instruction::IfCZ => 2u8,
            Instruction::JmpB => 3u8,
            Instruction::JmpF => 4u8,
            Instruction::Call => 5u8,
            Instruction::Ret => 6u8,
            Instruction::MovDC => 7u8,
            Instruction::MovCD => 8u8,
            Instruction::Adr => 9u8,
            Instruction::AdrB => 10u8,
            Instruction::AdrF => 11u8,
            Instruction::IncA => 12u8,
            Instruction::IncB => 13u8,
            Instruction::IncC => 14u8,
            Instruction::DecC => 15u8,
            Instruction::MallocA => 16u8,
            Instruction::Divide => 17u8,
            Instruction::PushA => 18u8,
            Instruction::PushB => 19u8,
            Instruction::PushC => 20u8,
            Instruction::PushD => 21u8,
            Instruction::PopA => 22u8,
            Instruction::PopB => 23u8,
            Instruction::PopC => 24u8,
            Instruction::PopD => 25u8,
            Instruction::Halt => 26u8,
        }
    }

    /// The opcode of an integer code; codes outside `0..27` decode to `Nop0`.
    pub open spec fn decode(b: u8) -> Instruction {
        if b == 0 {
            Instruction::Nop0
        } else if b == 1 {
            Instruction::Nop1
        } else if b == 2 {
            Instruction::IfCZ
        } else if b == 3 {
            Instruction::JmpB
        } else if b == 4 {
            Instruction::JmpF
        } else if b == 5 {
            Instruction::Call
        } else if b == 6 {
            Instruction::Ret
        } else if b == 7 {
            Instruction::MovDC
        } else if b == 8 {
            Instruction::MovCD
        } else if b == 9 {
            Instruction::Adr
        } else if b == 10 {
            Instruction::AdrB
        } else if b == 11 {
            Instruction::AdrF
        } else if b == 12 {
            Instruction::IncA
        } else if b == 13 {
            Instruction::IncB
        } else if b == 14 {
            Instruction::IncC
        } else if b == 15 {
            Instruction::DecC
        } else if b == 16 {
            Instruction::MallocA
        } else if b == 17 {
            Instruction::Divide
        } else if b == 18 {
            Instruction::PushA
        } else if b == 19 {
            Instruction::PushB
        } else if b == 20 {
            Instruction::PushC
        } else if b == 21 {
            Instruction::PushD
        } else if b == 22 {
            Instruction::PopA
        } else if b == 23 {
            Instruction::PopB
        } else if b == 24 {
            Instruction::PopC
        } else if b == 25 {
            Instruction::PopD
        } else if b == 26 {
            Instruction::Halt
        } else {
            Instruction::Nop0
        }
    }

    /// Template markers are the two no-operation opcodes.
    pub open spec fn spec_is_template(self) -> bool {
        self == Instruction::Nop0 || self == Instruction::Nop1
    }

    /// The complement of a template marker; other opcodes have none.
    pub open spec fn spec_complement(self) -> Option<Instruction> {
        match self {
            Instruction::Nop0 => Some(Instruction::Nop1),
            Instruction::Nop1 => Some(Instruction::Nop0),
            _ => None,
        }
    }

    /// Convert a byte to an instruction, with invalid values becoming `Nop0`.
    pub fn from_u8(byte: u8) -> (r: Instruction)
        ensures
            r == Instruction::decode(byte),
            byte < OPCODE_COUNT ==> r.code() == byte,
            byte >= OPCODE_COUNT ==> r == Instruction::Nop0,
    {
        match byte {
            0 => Instruction::Nop0,
            1 => Instruction::Nop1,
            2 => Instruction::IfCZ,
            3 => Instruction::JmpB,
            4 => Instruction::JmpF,
            5 => Instruction::Call,
            6 => Instruction::Ret,
            7 => Instruction::MovDC,
            8 => Instruction::MovCD,
            9 => Instruction::Adr,
            10 => Instruction::AdrB,
            11 => Instruction::AdrF,
            12 => Instruction::IncA,
            13 => Instruction::IncB,
            14 => Instruction::IncC,
            15 => Instruction::DecC,
            16 => Instruction::MallocA,
            17 => Instruction::Divide,
            18 => Instruction::PushA,
            19 => Instruction::PushB,
            20 => Instruction::PushC,
            21 => Instruction::PushD,
            22 => Instruction::PopA,
            23 => Instruction::PopB,
            24 => Instruction::PopC,
            25 => Instruction::PopD,
            26 => Instruction::Halt,
            _ => Instruction::Nop0,
        }
    }

    /// Convert an instruction to its byte code.
    pub fn to_u8(self) -> (r: u8)
        ensures
            r == self.code(),
            r < OPCODE_COUNT,
    {
        match self {
            Instruction::Nop0 => 0,
            Instruction::Nop1 => 1,
            Instruction::IfCZ => 2,
            Instruction::JmpB => 3,
            Instruction::JmpF => 4,
            Instruction::Call => 5,
            Instruction::Ret => 6,
            Instruction::MovDC => 7,
            Instruction::MovCD => 8,
            Instruction::Adr => 9,
            Instruction::AdrB => 10,
            Instruction::AdrF => 11,
            Instruction::IncA => 12,
            Instruction::IncB => 13,
            Instruction::IncC => 14,
            Instruction::DecC => 15,
            Instruction::MallocA => 16,
            Instruction::Divide => 17,
            Instruction::PushA => 18,
            Instruction::PushB => 19,
            Instruction::PushC => 20,
            Instruction::PushD => 21,
            Instruction::PopA => 22,
            Instruction::PopB => 23,
            Instruction::PopC => 24,
            Instruction::PopD => 25,
            Instruction::Halt => 26,
        }
    }

    /// Whether this instruction is a template marker (`Nop0` or `Nop1`).
    pub fn is_template(&self) -> (r: bool)
        ensures
            r == self.spec_is_template(),
    {
        match self {
            Instruction::Nop0 | Instruction::Nop1 => true,
            _ => false,
        }
    }

    /// The complement of a template marker.
    pub fn complement(&self) -> (r: Option<Instruction>)
        ensures
            r == self.spec_complement(),
            r is Some <==> self.spec_is_template(),
    {
        match self {
            Instruction::Nop0 => Some(Instruction::Nop1),
            Instruction::Nop1 => Some(Instruction::Nop0),
            _ => None,
        }
    }
}

impl Default for Instruction {
    fn default() -> (r: Instruction)
        ensures
            r == Instruction::Nop0,
    {
        Instruction::Nop0
    }
}

/// The complement of a template: each marker swapped, other opcodes dropped.
pub open spec fn template_complement(t: Seq<Instruction>) -> Seq<Instruction>
    decreases t.len(),
{
    if t.len() == 0 {
        Seq::empty()
    } else {
        let prev = template_complement(t.drop_last());
        match t.last().spec_complement() {
            Some(c) => prev.push(c),
            None => prev,
        }
    }
}

/// Whether every opcode of a sequence is a template marker.
pub open spec fn all_templates(t: Seq<Instruction>) -> bool {
    forall|i: int| 0 <= i < t.len() ==> (#[trigger] t[i]).spec_is_template()
}

/// Decoding the code of an opcode gives the opcode back.
pub proof fn lemma_code_round_trip(x: Instruction)
    ensures
        Instruction::decode(x.code()) == x,
{
}

/// Every code in range names a distinct opcode.
pub proof fn lemma_decode_round_trip(b: u8)
    requires
        b < OPCODE_COUNT,
    ensures
        Instruction::decode(b).code() == b,
{
}

/// Complementing a marker twice gives it back.
pub proof fn lemma_complement_involutive(x: Instruction)
    requires
        x.spec_is_template(),
    ensures
        x.spec_complement() matches Some(c) && c.spec_complement() == Some(x),
{
}

/// The complement of a template is a template of the same length.
pub proof fn lemma_template_complement_shape(t: Seq<Instruction>)
    requires
        all_templates(t),
    ensures
        template_complement(t).len() == t.len(),
        all_templates(template_complement(t)),
        forall|i: int| 0 <= i < t.len() ==> Some(#[trigger] template_complement(t)[i]) == t[i].spec_complement(),
    decreases t.len(),
{
    if t.len() > 0 {
        let p = t.drop_last();
        assert(all_templates(p)) by {
            assert forall|i: int| 0 <= i < p.len() implies (#[trigger] p[i]).spec_is_template() by {
                assert(p[i] == t[i]);
            }
        }
        lemma_template_complement_shape(p);
        assert(t.last() == t[t.len() - 1]);
    }
}

/// Complementing a template twice gives it back.
pub proof fn lemma_template_complement_involutive(t: Seq<Instruction>)
    requires
        all_templates(t),
    ensures
        template_complement(template_complement(t)) == t,
{
    let c = template_complement(t);
    lemma_template_complement_shape(t);
    lemma_template_complement_shape(c);
    assert(template_complement(c) =~= t);
}

} // verus!
