//! Parsing of the opcode-tagged instruction payloads.
//!
//! `0 Initialize`: opcode(1) · admin(32) · payment_account(32) ·
//! name_len(4) · name. `1 StartGame`: opcode only. `2 SubmitScore`:
//! opcode(1) · score(8) · token(32). `3 UpdateCost`: opcode(1) ·
//! new_cost(8). `4 AddGame`: opcode(1) · game_id(32) · name_len(4) · name.
//! A short payload, a name that runs past the end or is not UTF-8, and an
//! unknown opcode are all rejected as `MalformedInstruction`.
use vstd::prelude::*;

use vstd::bytes::spec_u32_from_le_bytes;
use vstd::bytes::spec_u64_from_le_bytes;

use crate::codec::read_bytes;
use crate::codec::read_u32;
use crate::codec::read_u64;
use crate::types::ArcadeError;
use crate::utf8::check_utf8;
use crate::utf8::valid_utf8;

verus! {

/// A decoded instruction, ready for dispatch.
pub enum Instruction {
    Initialize { admin: Vec<u8>, token_account: Vec<u8>, name: Vec<u8> },
    StartGame,
    SubmitScore { score: u64, token: Vec<u8> },
    UpdateCost { new_cost: u64 },
    AddGame { game_id: Vec<u8>, name: Vec<u8> },
}

/// Mathematical view of a decoded instruction.
#[verifier::ext_equal]
pub enum InstructionV {
    Initialize { admin: Seq<u8>, token_account: Seq<u8>, name: Seq<u8> },
    StartGame,
    SubmitScore { score: u64, token: Seq<u8> },
    UpdateCost { new_cost: u64 },
    AddGame { game_id: Seq<u8>, name: Seq<u8> },
}

impl View for Instruction {
    type V = InstructionV;

    open spec fn view(&self) -> InstructionV {
        match self {
            Instruction::Initialize { admin, token_account, name } => InstructionV::Initialize {
                admin: admin@,
                token_account: token_account@,
                name: name@,
            },
            Instruction::StartGame => InstructionV::StartGame,
            Instruction::SubmitScore { score, token } => InstructionV::SubmitScore {
                score: *score,
                token: token@,
            },
            Instruction::UpdateCost { new_cost } => InstructionV::UpdateCost {
                new_cost: *new_cost,
            },
            Instruction::AddGame { game_id, name } => InstructionV::AddGame {
                game_id: game_id@,
                name: name@,
            },
        }
    }
}

/// What parsing a payload yields, for every byte sequence.
pub open spec fn parse_result(b: Seq<u8>) -> Result<InstructionV, ArcadeError> {
    if b.len() < 1 {
        Err(ArcadeError::MalformedInstruction)
    } else if b[0] == 0 {
        if b.len() < 69 {
            Err(ArcadeError::MalformedInstruction)
        } else {
            let nl: int = spec_u32_from_le_bytes(b.subrange(65, 69)) as int;
            if 69 + nl > b.len() {
                Err(ArcadeError::MalformedInstruction)
            } else if !valid_utf8(b.subrange(69, 69 + nl)) {
                Err(ArcadeError::MalformedInstruction)
            } else {
                Ok(
                    InstructionV::Initialize {
                        admin: b.subrange(1, 33),
                        token_account: b.subrange(33, 65),
                        name: b.subrange(69, 69 + nl),
                    },
                )
            }
        }
    } else if b[0] == 1 {
        Ok(InstructionV::StartGame)
    } else if b[0] == 2 {
        if b.len() < 41 {
            Err(ArcadeError::MalformedInstruction)
        } else {
            Ok(
                InstructionV::SubmitScore {
                    score: spec_u64_from_le_bytes(b.subrange(1, 9)),
                    token: b.subrange(9, 41),
                },
            )
        }
    } else if b[0] == 3 {
        if b.len() < 9 {
            Err(ArcadeError::MalformedInstruction)
        } else {
            Ok(InstructionV::UpdateCost { new_cost: spec_u64_from_le_bytes(b.subrange(1, 9)) })
        }
    } else if b[0] == 4 {
        if b.len() < 37 {
            Err(ArcadeError::MalformedInstruction)
        } else {
            let nl: int = spec_u32_from_le_bytes(b.subrange(33, 37)) as int;
            if 37 + nl > b.len() {
                Err(ArcadeError::MalformedInstruction)
            } else if !valid_utf8(b.subrange(37, 37 + nl)) {
                Err(ArcadeError::MalformedInstruction)
            } else {
                Ok(
                    InstructionV::AddGame {
                        game_id: b.subrange(1, 33),
                        name: b.subrange(37, 37 + nl),
                    },
                )
            }
        }
    } else {
        Err(ArcadeError::MalformedInstruction)
    }
}

/// Parses an instruction payload, validating all declared lengths against
/// the payload end and names as UTF-8.
pub fn parse_instruction(data: &Vec<u8>) -> (r: Result<Instruction, ArcadeError>)
    ensures
        match r {
            Ok(ins) => parse_result(data@) == Ok::<InstructionV, ArcadeError>(ins@),
            Err(e) => parse_result(data@) == Err::<InstructionV, ArcadeError>(e),
        },
{
    let l: usize = data.len();
    if l < 1 {
        return Err(ArcadeError::MalformedInstruction);
    }
    let opcode: u8 = data[0];
    if opcode == 0 {
        if l < 69 {
            return Err(ArcadeError::MalformedInstruction);
        }
        let nl32: u32 = read_u32(data, 65);
        let nl: usize = nl32 as usize;
        if nl > l - 69 {
            return Err(ArcadeError::MalformedInstruction);
        }
        let name: Vec<u8> = read_bytes(data, 69, nl);
        if !check_utf8(&name) {
            return Err(ArcadeError::MalformedInstruction);
        }
        let admin: Vec<u8> = read_bytes(data, 1, 32);
        let token_account: Vec<u8> = read_bytes(data, 33, 32);
        Ok(Instruction::Initialize { admin, token_account, name })
    } else if opcode == 1 {
        Ok(Instruction::StartGame)
    } else if opcode == 2 {
        if l < 41 {
            return Err(ArcadeError::MalformedInstruction);
        }
        let score: u64 = read_u64(data, 1);
        let token: Vec<u8> = read_bytes(data, 9, 32);
        Ok(Instruction::SubmitScore { score, token })
    } else if opcode == 3 {
        if l < 9 {
            return Err(ArcadeError::MalformedInstruction);
        }
        let new_cost: u64 = read_u64(data, 1);
        Ok(Instruction::UpdateCost { new_cost })
    } else if opcode == 4 {
        if l < 37 {
            return Err(ArcadeError::MalformedInstruction);
        }
        let nl32: u32 = read_u32(data, 33);
        let nl: usize = nl32 as usize;
        if nl > l - 37 {
            return Err(ArcadeError::MalformedInstruction);
        }
        let name: Vec<u8> = read_bytes(data, 37, nl);
        if !check_utf8(&name) {
            return Err(ArcadeError::MalformedInstruction);
        }
        let game_id: Vec<u8> = read_bytes(data, 1, 32);
        Ok(Instruction::AddGame { game_id, name })
    } else {
        Err(ArcadeError::MalformedInstruction)
    }
}

} // verus!
