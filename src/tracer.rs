use vstd::prelude::*;

use std::collections::HashMap;

use crate::address::MapEntry;
use crate::error::DebugError;

verus! {

broadcast use vstd::std_specs::hash::group_hash_axioms;

/// The x86-64 INT3 instruction.
pub const TRAP_INSTRUCTION: i64 = 0xCC;

/// The signal number of SIGTRAP on Linux.
pub const SIGTRAP: i32 = 5;

/// `word` with its lowest byte replaced by the trap instruction.
pub open spec fn with_trap(word: i64) -> i64 {
    (word & !0xFFi64) | 0xCC
}

/// Replaces the lowest byte of a little-endian code word by INT3, keeping
/// the other bytes.
pub fn add_trap_instruction(word: i64) -> (r: i64)
    ensures
        r == with_trap(word),
        r & 0xFF == 0xCC,
        r & !0xFFi64 == word & !0xFFi64,
{
    let r = (word & !0xFFi64) | TRAP_INSTRUCTION;
    assert(r & 0xFF == 0xCC && r & !0xFFi64 == word & !0xFFi64) by (bit_vector)
        requires
            r == (word & !0xFFi64) | 0xCCi64,
    ;
    r
}

/// How a wait on the child ended.
#[derive(Clone, Copy, Debug, PartialEq, Eq, Structural)]
pub enum StopStatus {
    /// The child exited with this status.
    Exited(i32),
    /// The child stopped on this signal.
    Stopped(i32),
    /// Any other change of state.
    Other,
}

/// What a stop means to the debugger.
#[derive(Clone, Copy, Debug, PartialEq, Eq, Structural)]
pub enum StopKind {
    /// The child hit the trap installed at this runtime address.
    Breakpoint(u64),
    /// The child stopped for another reason.
    Other,
}

/// How to resume the child.
#[derive(Clone, Copy, Debug, PartialEq, Eq, Structural)]
pub enum ResumePlan {
    /// Continue the child as it is.
    Continue,
    /// The child sits just past the trap at `address`: set its instruction
    /// pointer back to `address`, write `original` there, single-step, write
    /// `rearm` there, then continue.
    StepOver { address: u64, original: i64, rearm: i64 },
}

/// The trap the child stopped on: a SIGTRAP stop whose instruction pointer
/// sits one byte past an installed trap.
pub open spec fn trap_hit(status: StopStatus, traps: Map<u64, i64>, rip: u64) -> Option<u64> {
    if status == StopStatus::Stopped(SIGTRAP) && rip >= 1 && traps.contains_key((rip - 1) as u64) {
        Some((rip - 1) as u64)
    } else {
        None
    }
}

/// The resume plan for a child last seen with `status` and instruction
/// pointer `rip`.
pub open spec fn resume_plan_of(status: StopStatus, traps: Map<u64, i64>, rip: u64) -> ResumePlan {
    match trap_hit(status, traps, rip) {
        Some(a) => ResumePlan::StepOver { address: a, original: traps[a], rearm: with_trap(traps[a]) },
        None => ResumePlan::Continue,
    }
}

/// A child running under the debugger: its pid, the mapping of its code,
/// the installed traps (runtime address → original code word) and how the
/// last wait on it ended.
pub struct RunningProgram {
    pid: i32,
    map: MapEntry,
    set_breakpoints: HashMap<u64, i64>,
    last_status: StopStatus,
}

impl RunningProgram {
    /// The installed traps: runtime address → original code word.
    pub closed spec fn traps(&self) -> Map<u64, i64> {
        self.set_breakpoints@
    }

    pub closed spec fn spec_last_status(&self) -> StopStatus {
        self.last_status
    }

    pub closed spec fn spec_pid(&self) -> i32 {
        self.pid
    }

    pub closed spec fn spec_map(&self) -> MapEntry {
        self.map
    }

    /// The child's process id.
    pub fn pid(&self) -> (r: i32)
        ensures
            r == self.spec_pid(),
    {
        self.pid
    }

    /// The mapping of the child's code.
    pub fn map(&self) -> (r: &MapEntry)
        ensures
            *r == self.spec_map(),
    {
        &self.map
    }

    /// A child that was just launched, with no trap installed yet.
    pub fn new(pid: i32, map: MapEntry) -> (r: RunningProgram)
        ensures
            r.spec_pid() == pid,
            r.spec_map() == map,
            r.traps() == Map::<u64, i64>::empty(),
            r.spec_last_status() == StopStatus::Other,
    {
        RunningProgram { pid, map, set_breakpoints: HashMap::new(), last_status: StopStatus::Other }
    }

    /// How the last wait on the child ended.
    pub fn last_status(&self) -> (r: StopStatus)
        ensures
            r == self.spec_last_status(),
    {
        self.last_status
    }

    /// The original code word saved for the trap at `address`.
    pub fn original_word(&self, address: u64) -> (r: Option<i64>)
        ensures
            r == (if self.traps().contains_key(address) {
                Some(self.traps()[address])
            } else {
                None::<i64>
            }),
    {
        match self.set_breakpoints.get(&address) {
            Some(w) => Some(*w),
            None => None,
        }
    }

    /// Records the trap at `address` whose code word was `original`, and
    /// gives the word to write there. An address that holds a trap already
    /// keeps its first original word, and nothing is to be written.
    pub fn arm(&mut self, address: u64, original: i64) -> (r: Option<i64>)
        ensures
            final(self).spec_pid() == old(self).spec_pid(),
            final(self).spec_map() == old(self).spec_map(),
            final(self).spec_last_status() == old(self).spec_last_status(),
            old(self).traps().contains_key(address) ==> r is None && final(self).traps() == old(
                self,
            ).traps(),
            !old(self).traps().contains_key(address) ==> r == Some(with_trap(original))
                && final(self).traps() == old(self).traps().insert(address, original),
    {
        if self.set_breakpoints.contains_key(&address) {
            return None;
        }
        self.set_breakpoints.insert(address, original);
        Some(add_trap_instruction(original))
    }

    /// Decides how to resume the child from its instruction pointer `rip`:
    /// after a SIGTRAP stop at an installed trap, step over the original
    /// instruction and re-arm the trap; otherwise continue.
    pub fn resume_plan(&self, rip: u64) -> (r: ResumePlan)
        ensures
            r == resume_plan_of(self.spec_last_status(), self.traps(), rip),
            r matches ResumePlan::StepOver { address, original, rearm } ==> {
                &&& self.traps().contains_key(address)
                &&& original == self.traps()[address]
                &&& address + 1 == rip
                &&& rearm & 0xFF == 0xCC
                &&& rearm & !0xFFi64 == original & !0xFFi64
            },
    {
        match self.trap_at_stop(rip) {
            Some(address) => {
                let original = match self.set_breakpoints.get(&address) {
                    Some(w) => *w,
                    None => 0,
                };
                let rearm = add_trap_instruction(original);
                ResumePlan::StepOver { address, original, rearm }
            },
            None => ResumePlan::Continue,
        }
    }

    fn trap_at_stop(&self, rip: u64) -> (r: Option<u64>)
        ensures
            r == trap_hit(self.spec_last_status(), self.traps(), rip),
    {
        if self.last_status == StopStatus::Stopped(SIGTRAP) && rip >= 1
            && self.set_breakpoints.contains_key(&(rip - 1)) {
            Some(rip - 1)
        } else {
            None
        }
    }

    /// Records how a wait on the child ended and says what the stop means.
    /// An exit is an error; a SIGTRAP stop one byte past an installed trap
    /// is a breakpoint hit at that trap.
    pub fn record_stop(&mut self, status: StopStatus, rip: u64) -> (r: Result<StopKind, DebugError>)
        ensures
            final(self).spec_pid() == old(self).spec_pid(),
            final(self).spec_map() == old(self).spec_map(),
            final(self).traps() == old(self).traps(),
            final(self).spec_last_status() == status,
            status is Exited ==> r == Err::<StopKind, DebugError>(DebugError::ChildExited),
            !(status is Exited) ==> r == Ok::<StopKind, DebugError>(
                match trap_hit(status, old(self).traps(), rip) {
                    Some(a) => StopKind::Breakpoint(a),
                    None => StopKind::Other,
                },
            ),
    {
        self.last_status = status;
        if let StopStatus::Exited(_) = status {
            return Err(DebugError::ChildExited);
        }
        match self.trap_at_stop(rip) {
            Some(a) => Ok(StopKind::Breakpoint(a)),
            None => Ok(StopKind::Other),
        }
    }
}

/// A stop classified as a breakpoint hit is at an installed trap, and the
/// resume plan from there restores that trap's original word and re-arms it
/// with INT3 in the lowest byte and every other byte of the original word.
pub proof fn lemma_hit_then_step_over_rearms(traps: Map<u64, i64>, rip: u64)
    requires
        trap_hit(StopStatus::Stopped(SIGTRAP), traps, rip) is Some,
    ensures
        ({
            let a = trap_hit(StopStatus::Stopped(SIGTRAP), traps, rip)->0;
            &&& traps.contains_key(a)
            &&& a + 1 == rip
            &&& resume_plan_of(StopStatus::Stopped(SIGTRAP), traps, rip) == ResumePlan::StepOver {
                address: a,
                original: traps[a],
                rearm: with_trap(traps[a]),
            }
            &&& with_trap(traps[a]) & 0xFF == 0xCC
            &&& with_trap(traps[a]) & !0xFFi64 == traps[a] & !0xFFi64
        }),
{
    let a = trap_hit(StopStatus::Stopped(SIGTRAP), traps, rip)->0;
    let w = traps[a];
    assert(((w & !0xFFi64) | 0xCC) & 0xFF == 0xCC && ((w & !0xFFi64) | 0xCC) & !0xFFi64 == w
        & !0xFFi64) by (bit_vector);
}

} // verus!
