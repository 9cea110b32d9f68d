use vstd::prelude::*;

use crate::error::DebugError;

verus! {

/// The general-purpose registers of a stopped x86-64 thread.
#[derive(Clone, Copy, Debug, PartialEq, Eq, Structural)]
pub struct Registers {
    pub rax: u64,
    pub rdx: u64,
    pub rcx: u64,
    pub rbx: u64,
    pub rsi: u64,
    pub rdi: u64,
    pub rbp: u64,
    pub rsp: u64,
    pub r8: u64,
    pub r9: u64,
    pub r10: u64,
    pub r11: u64,
    pub r12: u64,
    pub r13: u64,
    pub r14: u64,
    pub r15: u64,
    pub rip: u64,
}

/// The value of DWARF register `number` in `regs`, following the x86-64
/// DWARF register numbering (16 is the return-address column, read as `rip`).
pub open spec fn register_value(regs: Registers, number: u16) -> Option<u64> {
    if number == 0 {
        Some(regs.rax)
    } else if number == 1 {
        Some(regs.rdx)
    } else if number == 2 {
        Some(regs.rcx)
    } else if number == 3 {
        Some(regs.rbx)
    } else if number == 4 {
        Some(regs.rsi)
    } else if number == 5 {
        Some(regs.rdi)
    } else if number == 6 {
        Some(regs.rbp)
    } else if number == 7 {
        Some(regs.rsp)
    } else if number == 8 {
        Some(regs.r8)
    } else if number == 9 {
        Some(regs.r9)
    } else if number == 10 {
        Some(regs.r10)
    } else if number == 11 {
        Some(regs.r11)
    } else if number == 12 {
        Some(regs.r12)
    } else if number == 13 {
        Some(regs.r13)
    } else if number == 14 {
        Some(regs.r14)
    } else if number == 15 {
        Some(regs.r15)
    } else if number == 16 {
        Some(regs.rip)
    } else {
        None
    }
}

/// Reads DWARF register `register` out of the snapshot `regs`.
pub fn get_register_value(regs: &Registers, register: u16) -> (r: Result<u64, DebugError>)
    ensures
        match register_value(*regs, register) {
            Some(v) => r == Ok::<u64, DebugError>(v),
            None => r == Err::<u64, DebugError>(DebugError::InvalidRegister),
        },
{
    match register {
        0 => Ok(regs.rax),
        1 => Ok(regs.rdx),
        2 => Ok(regs.rcx),
        3 => Ok(regs.rbx),
        4 => Ok(regs.rsi),
        5 => Ok(regs.rdi),
        6 => Ok(regs.rbp),
        7 => Ok(regs.rsp),
        8 => Ok(regs.r8),
        9 => Ok(regs.r9),
        10 => Ok(regs.r10),
        11 => Ok(regs.r11),
        12 => Ok(regs.r12),
        13 => Ok(regs.r13),
        14 => Ok(regs.r14),
        15 => Ok(regs.r15),
        16 => Ok(regs.rip),
        _ => Err(DebugError::InvalidRegister),
    }
}

} // verus!
