use vstd::prelude::*;

use crate::address::{fits_u64, file_relative_address, file_relative_of, runtime_address, runtime_of, MapEntry};
use crate::error::DebugError;
use crate::lines::{
    first_wins, line_at, line_at_address, Breakpoint, BreakpointTable, LinePosition, LineRow,
};
use crate::tracer::{with_trap, ResumePlan, RunningProgram, StopKind, StopStatus};

verus! {

/// The breakpoints of `bps` whose positions are keys of `table`, in order.
pub open spec fn retained(bps: Seq<(Seq<char>, u64)>, table: Map<(Seq<char>, u64), u64>) -> Seq<
    (Seq<char>, u64),
>
    decreases bps.len(),
{
    if bps.len() == 0 {
        bps
    } else {
        let prev = retained(bps.drop_last(), table);
        if table.contains_key(bps.last()) {
            prev.push(bps.last())
        } else {
            prev
        }
    }
}

/// The positions of a list of breakpoints.
pub open spec fn positions(bps: Seq<Breakpoint>) -> Seq<(Seq<char>, u64)> {
    bps.map_values(|b: Breakpoint| b@)
}

/// The runtime addresses that the first `n` registered breakpoints
/// translate to.
pub open spec fn translated(
    bps: Seq<(Seq<char>, u64)>,
    table: Map<(Seq<char>, u64), u64>,
    map: MapEntry,
    n: int,
) -> Set<int> {
    Set::new(
        |a: int|
            exists|i: int|
                0 <= i < n && a == runtime_of(
                    table[#[trigger] bps[i]] as int,
                    map.begin as int,
                    map.offset as int,
                ),
    )
}

/// The runtime addresses that the registered breakpoints translate to.
pub open spec fn trap_address_set(
    bps: Seq<(Seq<char>, u64)>,
    table: Map<(Seq<char>, u64), u64>,
    map: MapEntry,
) -> Set<int> {
    translated(bps, table, map, bps.len() as int)
}

/// A loaded executable: its canonical path, the legal breakpoint positions
/// of its line programs, the rows they came from, and the caller's handle on
/// its debug information.
pub struct LoadedBinary<D> {
    binary_path: String,
    possible_breakpoints: BreakpointTable,
    line_rows: Vec<LineRow>,
    debug_info: D,
}

/// The debugger session: no binary, a loaded binary, or a loaded binary
/// with a child running under the debugger; plus the breakpoints the user
/// registered.
pub struct Session<D> {
    binary: Option<LoadedBinary<D>>,
    breakpoints: Vec<Breakpoint>,
    running: Option<RunningProgram>,
}

impl<D> Session<D> {
    /// A running child implies a loaded binary, and every registered
    /// breakpoint is a legal position of that binary.
    pub closed spec fn wf(&self) -> bool {
        &&& self.running is Some ==> self.binary is Some
        &&& match self.binary {
            Some(b) => {
                &&& b.possible_breakpoints.wf()
                &&& forall|i: int|
                    0 <= i < self.breakpoints@.len() ==> b.possible_breakpoints@.contains_key(
                        #[trigger] self.breakpoints@[i]@,
                    )
            },
            None => self.breakpoints@.len() == 0,
        }
    }

    pub closed spec fn is_loaded(&self) -> bool {
        self.binary is Some
    }

    pub closed spec fn is_running(&self) -> bool {
        self.running is Some
    }

    /// The legal breakpoint positions of the loaded binary.
    pub closed spec fn possible_breakpoints(&self) -> Map<(Seq<char>, u64), u64> {
        self.binary->0.possible_breakpoints@
    }

    /// The line-program rows of the loaded binary.
    pub closed spec fn line_rows(&self) -> Seq<LineRow> {
        self.binary->0.line_rows@
    }

    pub closed spec fn spec_binary_path(&self) -> Seq<char> {
        self.binary->0.binary_path@
    }

    /// The registered breakpoints, in the order they were entered.
    pub closed spec fn registered(&self) -> Seq<(Seq<char>, u64)> {
        positions(self.breakpoints@)
    }

    /// The running child.
    pub closed spec fn spec_program(&self) -> RunningProgram {
        self.running->0
    }

    /// A session with no binary and no breakpoint.
    pub fn new() -> (s: Session<D>)
        ensures
            s.wf(),
            !s.is_loaded(),
            !s.is_running(),
            s.registered().len() == 0,
    {
        Session { binary: None, breakpoints: Vec::new(), running: None }
    }

    /// Loading a binary while one is loaded replaces it, so the user is to
    /// confirm it first.
    pub fn needs_load_confirmation(&self) -> (r: bool)
        ensures
            r == self.is_loaded(),
    {
        self.binary.is_some()
    }

    /// Running while a child runs starts it anew, so the user is to confirm
    /// it first.
    pub fn needs_run_confirmation(&self) -> (r: bool)
        ensures
            r == self.is_running(),
    {
        self.running.is_some()
    }

    /// Loads a binary from its canonical path, the rows of its line programs
    /// and a handle on its debug information. The legal positions are those
    /// the rows define, first row first; a child that was running is let go;
    /// registered breakpoints that are not legal positions of the new binary
    /// are dropped.
    pub fn load(&mut self, binary_path: String, rows: Vec<LineRow>, debug_info: D)
        requires
            old(self).wf(),
        ensures
            final(self).wf(),
            final(self).is_loaded(),
            !final(self).is_running(),
            final(self).spec_binary_path() == binary_path@,
            final(self).possible_breakpoints() == first_wins(rows@),
            final(self).line_rows() == rows@,
            final(self).registered() == retained(old(self).registered(), first_wins(rows@)),
    {
        let table = BreakpointTable::from_rows(&rows);
        let mut kept: Vec<Breakpoint> = Vec::new();
        let mut i: usize = 0;
        while i < self.breakpoints.len()
            invariant
                table.wf(),
                table@ == first_wins(rows@),
                i <= self.breakpoints@.len(),
                positions(kept@) == retained(
                    positions(self.breakpoints@).subrange(0, i as int),
                    table@,
                ),
                forall|j: int| 0 <= j < kept@.len() ==> table@.contains_key(#[trigger] kept@[j]@),
            decreases self.breakpoints@.len() - i,
        {
            let ghost prefix = positions(self.breakpoints@).subrange(0, i + 1);
            assert(prefix.drop_last() == positions(self.breakpoints@).subrange(0, i as int));
            assert(prefix.last() == self.breakpoints@[i as int]@);
            if table.contains_key(&self.breakpoints[i]) {
                let bp = Breakpoint::new(self.breakpoints[i].file.clone(), self.breakpoints[i].line_number);
                let ghost before = kept@;
                kept.push(bp);
                assert(positions(kept@) == positions(before).push(bp@));
            }
            i = i + 1;
        }
        assert(positions(self.breakpoints@).subrange(0, self.breakpoints@.len() as int) == positions(
            self.breakpoints@,
        ));
        self.binary = Some(
            LoadedBinary { binary_path, possible_breakpoints: table, line_rows: rows, debug_info },
        );
        self.breakpoints = kept;
        self.running = None;
    }

    /// Registers a breakpoint at a canonical position. It fails when no
    /// binary is loaded; a position that is not legal for the binary is
    /// refused (`Ok(false)`) and nothing changes; a legal one is appended
    /// (`Ok(true)`).
    pub fn add_breakpoint(&mut self, bp: Breakpoint) -> (r: Result<bool, DebugError>)
        requires
            old(self).wf(),
        ensures
            final(self).wf(),
            final(self).is_loaded() == old(self).is_loaded(),
            final(self).is_running() == old(self).is_running(),
            old(self).is_loaded() ==> final(self).possible_breakpoints() == old(self).possible_breakpoints(),
            !old(self).is_loaded() ==> r == Err::<bool, DebugError>(DebugError::NoBinaryLoaded)
                && final(self).registered() == old(self).registered(),
            old(self).is_loaded() && !old(self).possible_breakpoints().contains_key(bp@) ==> r
                == Ok::<bool, DebugError>(false) && final(self).registered() == old(self).registered(),
            old(self).is_loaded() && old(self).possible_breakpoints().contains_key(bp@) ==> r
                == Ok::<bool, DebugError>(true) && final(self).registered() == old(self).registered().push(bp@),
    {
        let legal = match &self.binary {
            None => return Err(DebugError::NoBinaryLoaded),
            Some(b) => b.possible_breakpoints.contains_key(&bp),
        };
        if !legal {
            return Ok(false);
        }
        let ghost before = self.breakpoints@;
        self.breakpoints.push(bp);
        assert(positions(self.breakpoints@) == positions(before).push(bp@));
        Ok(true)
    }

    /// Whether a run can start: a binary must be loaded and at least one
    /// breakpoint registered.
    pub fn check_run(&self) -> (r: Result<(), DebugError>)
        ensures
            !self.is_loaded() ==> r == Err::<(), DebugError>(DebugError::NoBinaryLoaded),
            self.is_loaded() && self.registered().len() == 0 ==> r == Err::<(), DebugError>(
                DebugError::NoBreakpoints,
            ),
            self.is_loaded() && self.registered().len() > 0 ==> r == Ok::<(), DebugError>(()),
    {
        if self.binary.is_none() {
            return Err(DebugError::NoBinaryLoaded);
        }
        if self.breakpoints.len() == 0 {
            return Err(DebugError::NoBreakpoints);
        }
        Ok(())
    }

    /// The canonical path of the loaded binary.
    pub fn binary_path(&self) -> (r: Option<&String>)
        ensures
            self.is_loaded() ==> r is Some && r->0@ == self.spec_binary_path(),
            !self.is_loaded() ==> r is None,
    {
        match &self.binary {
            Some(b) => Some(&b.binary_path),
            None => None,
        }
    }

    /// The registered breakpoints, in the order they were entered.
    pub fn breakpoints(&self) -> (r: &Vec<Breakpoint>)
        ensures
            positions(r@) == self.registered(),
    {
        &self.breakpoints
    }

    /// The legal breakpoint positions of the loaded binary.
    pub fn breakpoint_table(&self) -> (r: Option<&BreakpointTable>)
        requires
            self.wf(),
        ensures
            self.is_loaded() ==> r is Some && r->0.wf() && r->0@ == self.possible_breakpoints(),
            !self.is_loaded() ==> r is None,
    {
        match &self.binary {
            Some(b) => Some(&b.possible_breakpoints),
            None => None,
        }
    }

    /// The handle on the loaded binary's debug information.
    pub fn debug_info(&self) -> (r: Option<&D>)
        ensures
            r is Some == self.is_loaded(),
    {
        match &self.binary {
            Some(b) => Some(&b.debug_info),
            None => None,
        }
    }

    /// The running child.
    pub fn program(&self) -> (r: Option<&RunningProgram>)
        ensures
            self.is_running() ==> r == Some(&self.spec_program()),
            !self.is_running() ==> r is None,
    {
        match &self.running {
            Some(p) => Some(p),
            None => None,
        }
    }

    /// The runtime addresses at which the registered breakpoints are to be
    /// trapped in a child whose code is mapped by `map`: each registered
    /// position's file-relative address translated into the child, each
    /// address once, in the order of registration.
    pub fn trap_addresses(&self, map: &MapEntry) -> (r: Result<Vec<u64>, DebugError>)
        requires
            self.wf(),
        ensures
            !self.is_loaded() ==> r == Err::<Vec<u64>, DebugError>(DebugError::NoBinaryLoaded),
            self.is_loaded() ==> match r {
                Ok(v) => {
                    &&& v@.no_duplicates()
                    &&& forall|a: int|
                        #![trigger trap_address_set(self.registered(), self.possible_breakpoints(), *map).contains(a)]
                        trap_address_set(
                            self.registered(),
                            self.possible_breakpoints(),
                            *map,
                        ).contains(a) <==> exists|k: int| 0 <= k < v@.len() && v@[k] == a
                },
                Err(e) => e == DebugError::AddressOutOfRange && exists|i: int|
                    0 <= i < self.registered().len() && !fits_u64(
                        runtime_of(
                            self.possible_breakpoints()[#[trigger] self.registered()[i]] as int,
                            map.begin as int,
                            map.offset as int,
                        ),
                    ),
            },
    {
        let b = match &self.binary {
            None => return Err(DebugError::NoBinaryLoaded),
            Some(b) => b,
        };
        let ghost bps = self.registered();
        let ghost table = b.possible_breakpoints@;
        let mut out: Vec<u64> = Vec::new();
        let mut i: usize = 0;
        while i < self.breakpoints.len()
            invariant
                self.wf(),
                self.binary == Some(*b),
                bps == self.registered(),
                table == b.possible_breakpoints@,
                i <= self.breakpoints@.len(),
                out@.no_duplicates(),
                forall|a: int| #[trigger]
                    translated(bps, table, *map, i as int).contains(a) <==> exists|k: int|
                        0 <= k < out@.len() && out@[k] == a,
            decreases self.breakpoints@.len() - i,
        {
            assert(bps[i as int] == self.breakpoints@[i as int]@);
            let va = match b.possible_breakpoints.get(&self.breakpoints[i]) {
                Some(va) => va,
                None => 0,
            };
            let ra = match runtime_address(va, map) {
                Some(ra) => ra,
                None => return Err(DebugError::AddressOutOfRange),
            };
            let mut present = false;
            let mut k: usize = 0;
            while k < out.len()
                invariant
                    k <= out@.len(),
                    present == exists|m: int| 0 <= m < k && out@[m] == ra,
                decreases out@.len() - k,
            {
                if out[k] == ra {
                    present = true;
                }
                k = k + 1;
            }
            let ghost before = out@;
            if !present {
                out.push(ra);
                assert forall|m1: int, m2: int|
                    0 <= m1 < out@.len() && 0 <= m2 < out@.len() && m1 != m2 implies out@[m1]
                    != out@[m2] by {
                    if m1 < before.len() && m2 < before.len() {
                    } else if m1 == before.len() {
                        assert(out@[m2] == before[m2]);
                    } else {
                        assert(out@[m1] == before[m1]);
                    }
                }
            }
            assert forall|a: int| #[trigger]
                translated(bps, table, *map, i + 1).contains(a) <==> exists|k: int|
                    0 <= k < out@.len() && out@[k] == a by {
                if exists|j: int|
                    0 <= j < i + 1 && a == runtime_of(
                        table[#[trigger] bps[j]] as int,
                        map.begin as int,
                        map.offset as int,
                    ) {
                    let j = choose|j: int|
                        0 <= j < i + 1 && a == runtime_of(
                            table[#[trigger] bps[j]] as int,
                            map.begin as int,
                            map.offset as int,
                        );
                    if j < i {
                        assert(translated(bps, table, *map, i as int).contains(a));
                        let k = choose|k: int| 0 <= k < before.len() && before[k] == a;
                        assert(out@[k] == before[k]);
                    } else if !present {
                        assert(out@[before.len() as int] == a);
                    }
                }
                if exists|k: int| 0 <= k < out@.len() && out@[k] == a {
                    let k = choose|k: int| 0 <= k < out@.len() && out@[k] == a;
                    if k < before.len() {
                        assert(before[k] == a);
                        assert(translated(bps, table, *map, i as int).contains(a));
                    } else {
                        assert(a == ra);
                    }
                }
            }
            i = i + 1;
        }
        assert(bps.len() == self.breakpoints@.len());
        assert forall|a: int| #[trigger]
            trap_address_set(self.registered(), self.possible_breakpoints(), *map).contains(a)
                <==> exists|k: int| 0 <= k < out@.len() && out@[k] == a by {
            assert(trap_address_set(self.registered(), self.possible_breakpoints(), *map)
                == translated(bps, table, *map, i as int));
        }
        Ok(out)
    }

    /// Starts tracking a freshly launched child `pid` whose code is mapped by
    /// `map`, with no trap installed. A child tracked before is let go.
    pub fn start_program(&mut self, pid: i32, map: MapEntry) -> (r: Result<(), DebugError>)
        requires
            old(self).wf(),
        ensures
            final(self).wf(),
            final(self).is_loaded() == old(self).is_loaded(),
            final(self).registered() == old(self).registered(),
            old(self).is_loaded() ==> final(self).possible_breakpoints() == old(self).possible_breakpoints(),
            !old(self).is_loaded() ==> r == Err::<(), DebugError>(DebugError::NoBinaryLoaded)
                && final(self).is_running() == old(self).is_running(),
            old(self).is_loaded() ==> r == Ok::<(), DebugError>(()) && final(self).is_running()
                && final(self).spec_program().spec_pid() == pid && final(self).spec_program().spec_map()
                == map && final(self).spec_program().traps() == Map::<u64, i64>::empty(),
    {
        if self.binary.is_none() {
            return Err(DebugError::NoBinaryLoaded);
        }
        self.running = Some(RunningProgram::new(pid, map));
        Ok(())
    }

    /// Records the trap installed at `address` over the code word
    /// `original`, and gives the word to write there (see
    /// [`RunningProgram::arm`]).
    pub fn arm_trap(&mut self, address: u64, original: i64) -> (r: Result<Option<i64>, DebugError>)
        requires
            old(self).wf(),
        ensures
            final(self).wf(),
            final(self).is_running() == old(self).is_running(),
            final(self).registered() == old(self).registered(),
            !old(self).is_running() ==> r == Err::<Option<i64>, DebugError>(
                DebugError::NoProgramRunning,
            ),
            old(self).is_running() ==> r is Ok && final(self).spec_program().spec_pid() == old(self).spec_program().spec_pid() && final(self).spec_program().traps() == arm_spec(
                old(self).spec_program().traps(),
                address,
                original,
            ) && (r->Ok_0 is Some <==> !old(self).spec_program().traps().contains_key(address)) && (
            r->Ok_0 is Some ==> r->Ok_0->0 == with_trap(original)),
    {
        match &mut self.running {
            None => Err(DebugError::NoProgramRunning),
            Some(p) => Ok(p.arm(address, original)),
        }
    }

    /// How to resume the child from its instruction pointer `rip`.
    pub fn resume_plan(&self, rip: u64) -> (r: Result<ResumePlan, DebugError>)
        ensures
            !self.is_running() ==> r == Err::<ResumePlan, DebugError>(DebugError::NoProgramRunning),
            self.is_running() ==> r == Ok::<ResumePlan, DebugError>(
                crate::tracer::resume_plan_of(
                    self.spec_program().spec_last_status(),
                    self.spec_program().traps(),
                    rip,
                ),
            ),
    {
        match &self.running {
            None => Err(DebugError::NoProgramRunning),
            Some(p) => Ok(p.resume_plan(rip)),
        }
    }

    /// Records how a wait on the child ended. An exit lets the child go and
    /// is reported as an error; otherwise the stop is classified.
    pub fn record_stop(&mut self, status: StopStatus, rip: u64) -> (r: Result<StopKind, DebugError>)
        requires
            old(self).wf(),
        ensures
            final(self).wf(),
            final(self).registered() == old(self).registered(),
            !old(self).is_running() ==> r == Err::<StopKind, DebugError>(
                DebugError::NoProgramRunning,
            ) && !final(self).is_running(),
            old(self).is_running() && status is Exited ==> r == Err::<StopKind, DebugError>(
                DebugError::ChildExited,
            ) && !final(self).is_running(),
            old(self).is_running() && !(status is Exited) ==> final(self).is_running() && final(self).spec_program().traps() == old(self).spec_program().traps() && final(self).spec_program().spec_last_status() == status && r == Ok::<StopKind, DebugError>(
                match crate::tracer::trap_hit(status, old(self).spec_program().traps(), rip) {
                    Some(a) => StopKind::Breakpoint(a),
                    None => StopKind::Other,
                },
            ),
    {
        let r = match &mut self.running {
            None => return Err(DebugError::NoProgramRunning),
            Some(p) => p.record_stop(status, rip),
        };
        if r.is_err() {
            self.running = None;
        }
        r
    }

    /// The source position of runtime address `address` in the running
    /// child: translated back to a file-relative address, then looked up
    /// among the binary's rows.
    pub fn location_of(&self, address: u64) -> (r: Result<LinePosition, DebugError>)
        ensures
            !self.is_running() ==> r == Err::<LinePosition, DebugError>(
                DebugError::NoProgramRunning,
            ),
            self.is_running() && self.is_loaded() ==> {
                let va = file_relative_of(
                    address as int,
                    self.spec_program().spec_map().begin as int,
                    self.spec_program().spec_map().offset as int,
                );
                match r {
                    Ok(p) => fits_u64(va) && line_at(self.line_rows(), va as u64) == Some(
                        (p.path@, p.line_number),
                    ),
                    Err(e) => e == DebugError::SourceNotFound && (!fits_u64(va) || line_at(
                        self.line_rows(),
                        va as u64,
                    ) is None),
                }
            },
    {
        let p = match &self.running {
            None => return Err(DebugError::NoProgramRunning),
            Some(p) => p,
        };
        let b = match &self.binary {
            None => return Err(DebugError::NoBinaryLoaded),
            Some(b) => b,
        };
        match file_relative_address(address, p.map()) {
            Some(va) => line_at_address(&b.line_rows, va),
            None => Err(DebugError::SourceNotFound),
        }
    }
}

/// The trap table after arming `address` over `original`: a new address
/// records its original word, an armed one keeps its first.
pub open spec fn arm_spec(traps: Map<u64, i64>, address: u64, original: i64) -> Map<u64, i64> {
    if traps.contains_key(address) {
        traps
    } else {
        traps.insert(address, original)
    }
}

/// The trap table after arming each of `addresses` in turn, over the words
/// read there.
pub open spec fn arm_all(traps: Map<u64, i64>, addresses: Seq<u64>, words: Seq<i64>) -> Map<
    u64,
    i64,
>
    decreases addresses.len(),
{
    if addresses.len() == 0 {
        traps
    } else {
        arm_spec(
            arm_all(traps, addresses.drop_last(), words),
            addresses.last(),
            words[addresses.len() - 1],
        )
    }
}

/// Arming distinct addresses, starting from no trap, leaves exactly one
/// trap per address, each over the word read at that address.
pub proof fn lemma_arming_installs_each_address_once(addresses: Seq<u64>, words: Seq<i64>)
    requires
        addresses.no_duplicates(),
        words.len() == addresses.len(),
    ensures
        arm_all(Map::empty(), addresses, words).dom() == addresses.to_set(),
        forall|i: int|
            0 <= i < addresses.len() ==> arm_all(Map::empty(), addresses, words)[#[trigger] addresses[i]]
                == words[i],
    decreases addresses.len(),
{
    if addresses.len() > 0 {
        let prefix = addresses.drop_last();
        let n = addresses.len() - 1;
        assert(prefix.no_duplicates()) by {
            assert forall|i: int, j: int|
                0 <= i < prefix.len() && 0 <= j < prefix.len() && i != j implies prefix[i]
                != prefix[j] by {
                assert(prefix[i] == addresses[i] && prefix[j] == addresses[j]);
            }
        }
        lemma_arming_installs_each_address_once(prefix, words.subrange(0, n));
        lemma_arm_all_words_prefix(prefix, words);
        let prev = arm_all(Map::empty(), prefix, words);
        assert(!prev.contains_key(addresses[n])) by {
            if prev.contains_key(addresses[n]) {
                assert(prefix.to_set().contains(addresses[n]));
                let j = choose|j: int| 0 <= j < prefix.len() && prefix[j] == addresses[n];
                assert(addresses[j] == addresses[n]);
            }
        }
        assert(arm_all(Map::empty(), addresses, words).dom() =~= addresses.to_set()) by {
            assert forall|a: u64| addresses.to_set().contains(a) implies arm_all(
                Map::empty(),
                addresses,
                words,
            ).dom().contains(a) by {
                let j = choose|j: int| 0 <= j < addresses.len() && addresses[j] == a;
                if j < n {
                    assert(prefix[j] == a);
                    assert(prefix.to_set().contains(a));
                }
            }
            assert forall|a: u64| arm_all(Map::empty(), addresses, words).dom().contains(
                a,
            ) implies addresses.to_set().contains(a) by {
                if a != addresses[n] {
                    assert(prefix.to_set().contains(a));
                    let j = choose|j: int| 0 <= j < prefix.len() && prefix[j] == a;
                    assert(addresses[j] == a);
                }
            }
        }
        assert forall|i: int| 0 <= i < addresses.len() implies arm_all(
            Map::empty(),
            addresses,
            words,
        )[#[trigger] addresses[i]] == words[i] by {
            if i < n {
                assert(prefix[i] == addresses[i]);
                assert(words.subrange(0, n)[i] == words[i]);
            }
        }
    }
}

/// After a run arms each of its trap addresses, every registered breakpoint
/// has a trap at its translated address, and every trap belongs to some
/// registered breakpoint.
pub proof fn lemma_run_traps_every_breakpoint(
    bps: Seq<(Seq<char>, u64)>,
    table: Map<(Seq<char>, u64), u64>,
    map: MapEntry,
    addresses: Seq<u64>,
    words: Seq<i64>,
)
    requires
        addresses.no_duplicates(),
        words.len() == addresses.len(),
        forall|a: int| #[trigger]
            trap_address_set(bps, table, map).contains(a) <==> exists|k: int|
                0 <= k < addresses.len() && addresses[k] == a,
    ensures
        forall|i: int|
            0 <= i < bps.len() ==> arm_all(Map::empty(), addresses, words).contains_key(
                runtime_of(
                    table[#[trigger] bps[i]] as int,
                    map.begin as int,
                    map.offset as int,
                ) as u64,
            ),
        forall|a: u64| #[trigger]
            arm_all(Map::empty(), addresses, words).contains_key(a) ==> trap_address_set(
                bps,
                table,
                map,
            ).contains(a as int),
{
    lemma_arming_installs_each_address_once(addresses, words);
    let traps = arm_all(Map::empty(), addresses, words);
    assert forall|i: int| 0 <= i < bps.len() implies traps.contains_key(
        runtime_of(table[#[trigger] bps[i]] as int, map.begin as int, map.offset as int) as u64,
    ) by {
        let a = runtime_of(table[bps[i]] as int, map.begin as int, map.offset as int);
        assert(trap_address_set(bps, table, map).contains(a));
        let k = choose|k: int| 0 <= k < addresses.len() && addresses[k] == a;
        assert(addresses.to_set().contains(addresses[k]));
    }
    assert forall|a: u64| #[trigger] traps.contains_key(a) implies trap_address_set(
        bps,
        table,
        map,
    ).contains(a as int) by {
        assert(addresses.to_set().contains(a));
        let k = choose|k: int| 0 <= k < addresses.len() && addresses[k] == a;
        assert(exists|k: int| 0 <= k < addresses.len() && addresses[k] == a as int);
    }
}

/// Arming reads only the words that belong to the addresses armed.
proof fn lemma_arm_all_words_prefix(addresses: Seq<u64>, words: Seq<i64>)
    requires
        addresses.len() < words.len(),
    ensures
        arm_all(Map::empty(), addresses, words) == arm_all(
            Map::empty(),
            addresses,
            words.subrange(0, addresses.len() as int),
        ),
    decreases addresses.len(),
{
    if addresses.len() > 0 {
        lemma_arm_all_words_prefix(addresses.drop_last(), words);
        lemma_arm_all_words_prefix(
            addresses.drop_last(),
            words.subrange(0, addresses.len() as int),
        );
        assert(words.subrange(0, addresses.len() as int).subrange(
            0,
            addresses.len() - 1,
        ) == words.subrange(0, addresses.len() - 1));
    }
}

/// The location reported at a breakpoint does not depend on where the
/// executable was loaded: for a trap installed at the file-relative address
/// `va` in two runs whose code mappings differ, the position reported at
/// each hit is the position of the first row at `va`.
pub proof fn lemma_stop_report_independent_of_load_address(
    rows: Seq<LineRow>,
    va: u64,
    map1: MapEntry,
    map2: MapEntry,
)
    requires
        fits_u64(runtime_of(va as int, map1.begin as int, map1.offset as int)),
        fits_u64(runtime_of(va as int, map2.begin as int, map2.offset as int)),
    ensures
        ({
            let a1 = runtime_of(va as int, map1.begin as int, map1.offset as int);
            let a2 = runtime_of(va as int, map2.begin as int, map2.offset as int);
            let v1 = file_relative_of(a1, map1.begin as int, map1.offset as int);
            let v2 = file_relative_of(a2, map2.begin as int, map2.offset as int);
            &&& v1 == va
            &&& v2 == va
            &&& line_at(rows, v1 as u64) == line_at(rows, v2 as u64)
            &&& line_at(rows, v1 as u64) == line_at(rows, va)
        }),
{
    crate::address::lemma_address_round_trip(va as int, 0, map1.begin as int, map1.offset as int);
    crate::address::lemma_address_round_trip(va as int, 0, map2.begin as int, map2.offset as int);
}

/// Loading the same rows again keeps the legal positions and every
/// registered breakpoint.
pub proof fn lemma_reload_keeps_session(
    registered: Seq<(Seq<char>, u64)>,
    rows: Seq<LineRow>,
)
    requires
        forall|i: int| 0 <= i < registered.len() ==> first_wins(rows).contains_key(#[trigger] registered[i]),
    ensures
        retained(registered, first_wins(rows)) == registered,
    decreases registered.len(),
{
    if registered.len() > 0 {
        let prefix = registered.drop_last();
        assert forall|i: int| 0 <= i < prefix.len() implies first_wins(rows).contains_key(
            #[trigger] prefix[i],
        ) by {
            assert(prefix[i] == registered[i]);
        }
        lemma_reload_keeps_session(prefix, rows);
        assert(registered.last() == registered[registered.len() - 1]);
        assert(prefix.push(registered.last()) == registered);
    }
}

/// The value printed for a variable: the low 32 bits of the word read at
/// its address, as an unsigned number.
pub fn variable_value(word: i64) -> (r: u32)
    ensures
        r as int == (word as int) % 0x1_0000_0000,
{
    let low = word & 0xFFFF_FFFFi64;
    assert(low == (word as int) % 0x1_0000_0000 && 0 <= low <= 0xFFFF_FFFF) by (bit_vector)
        requires
            low == word & 0xFFFF_FFFFi64,
    ;
    low as u32
}

} // verus!
