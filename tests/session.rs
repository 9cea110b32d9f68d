use debugito::address::MapEntry;
use debugito::error::DebugError;
use debugito::lines::{parse_breakpoint, Breakpoint, LineRow};
use debugito::session::{variable_value, Session};
use debugito::tracer::{ResumePlan, StopKind, StopStatus, SIGTRAP};

const MAIN: &str = "/abs/path/main.c";

fn row(address: u64, line: u64) -> LineRow {
    LineRow { address, end_sequence: false, path: Some(MAIN.to_string()), line: Some(line) }
}

fn hello_rows() -> Vec<LineRow> {
    vec![
        row(0x1139, 5),
        row(0x1141, 7),
        row(0x114d, 7),
        row(0x1152, 9),
        row(0x1159, 10),
        LineRow { address: 0x1160, end_sequence: true, path: Some(MAIN.to_string()), line: Some(10) },
    ]
}

fn code_map(begin: u64) -> MapEntry {
    MapEntry { begin, end: begin + 0x1000, offset: 0x1000, executable: true, pathname: "/abs/path/hello".to_string() }
}

fn bp(line: u64) -> Breakpoint {
    Breakpoint::new(MAIN.to_string(), line)
}

fn loaded() -> Session<()> {
    let mut s: Session<()> = Session::new();
    s.load("/abs/path/hello".to_string(), hello_rows(), ());
    s
}

#[test]
fn load_reports_line_positions() {
    let s = loaded();
    let t = s.breakpoint_table().unwrap();
    assert!(t.contains_key(&bp(7)));
    assert!(t.contains_key(&bp(9)));
    assert_eq!(t.get(&bp(7)), Some(0x1141));
    assert_eq!(s.binary_path().unwrap(), "/abs/path/hello");
    assert!(s.debug_info().is_some());
    assert!(s.needs_load_confirmation());
    assert!(!s.needs_run_confirmation());
}

#[test]
fn commands_before_load() {
    let mut s: Session<()> = Session::new();
    assert!(!s.needs_load_confirmation());
    assert!(s.binary_path().is_none());
    assert!(s.breakpoint_table().is_none());
    assert_eq!(s.add_breakpoint(bp(7)), Err(DebugError::NoBinaryLoaded));
    assert_eq!(s.check_run(), Err(DebugError::NoBinaryLoaded));
    assert_eq!(s.trap_addresses(&code_map(0x5000)).unwrap_err(), DebugError::NoBinaryLoaded);
    assert_eq!(s.start_program(1, code_map(0x5000)), Err(DebugError::NoBinaryLoaded));
    assert_eq!(s.resume_plan(0).unwrap_err(), DebugError::NoProgramRunning);
    assert_eq!(s.location_of(0).unwrap_err(), DebugError::NoProgramRunning);
    assert!(s.breakpoints().is_empty());
}

#[test]
fn breakpoint_at_valid_line_is_accepted() {
    let mut s = loaded();
    // `main.c:7` as typed, with the file then made canonical by the caller.
    let mut b = parse_breakpoint("main.c:7").unwrap();
    b.file = MAIN.to_string();
    assert_eq!(s.add_breakpoint(b), Ok(true));
    assert_eq!(s.breakpoints().len(), 1);
    assert_eq!(s.breakpoints()[0].file, MAIN);
    assert_eq!(s.breakpoints()[0].line_number, 7);
}

#[test]
fn breakpoint_at_invalid_line_changes_nothing() {
    let mut s = loaded();
    assert_eq!(s.add_breakpoint(bp(7)), Ok(true));
    let mut b = parse_breakpoint("main.c:999").unwrap();
    b.file = MAIN.to_string();
    assert_eq!(s.add_breakpoint(b), Ok(false));
    assert_eq!(s.add_breakpoint(Breakpoint::new("/abs/path/other.c".to_string(), 7)), Ok(false));
    assert_eq!(s.breakpoints().len(), 1);
    assert!(s.breakpoints()[0] == bp(7));
}

#[test]
fn run_needs_a_breakpoint() {
    let s = loaded();
    assert_eq!(s.check_run(), Err(DebugError::NoBreakpoints));
}

#[test]
fn run_installs_one_trap_per_breakpoint() {
    let mut s = loaded();
    s.add_breakpoint(bp(7)).unwrap();
    s.add_breakpoint(bp(9)).unwrap();
    s.add_breakpoint(bp(7)).unwrap();
    assert_eq!(s.check_run(), Ok(()));
    let m = code_map(0x5555_5555_5000);
    let addrs = s.trap_addresses(&m).unwrap();
    assert_eq!(addrs, vec![0x5555_5555_5141, 0x5555_5555_5152]);
    s.start_program(1234, m).unwrap();
    assert!(s.needs_run_confirmation());
    assert_eq!(s.arm_trap(addrs[0], 0x0000_00e8_c789_4855), Ok(Some(0x0000_00e8_c789_48cc)));
    assert_eq!(s.arm_trap(addrs[1], 0x0000_002a_fc45_c7aa), Ok(Some(0x0000_002a_fc45_c7cc)));
    assert_eq!(s.arm_trap(addrs[1], 0x0000_002a_fc45_c7cc), Ok(None));
    let p = s.program().unwrap();
    assert_eq!(p.pid(), 1234);
    assert_eq!(p.original_word(0x5555_5555_5141), Some(0x0000_00e8_c789_4855));
    assert_eq!(p.original_word(0x5555_5555_5152), Some(0x0000_002a_fc45_c7aa));
    assert_eq!(p.original_word(0x5555_5555_5139), None);
}

#[test]
fn trap_address_out_of_range() {
    let mut s = loaded();
    s.add_breakpoint(bp(5)).unwrap();
    let m = MapEntry { begin: 0, end: 0x1000, offset: 0x2000, executable: true, pathname: "/abs/path/hello".to_string() };
    assert_eq!(s.trap_addresses(&m).unwrap_err(), DebugError::AddressOutOfRange);
}

fn stopped_at_line_7() -> Session<()> {
    let mut s = loaded();
    s.add_breakpoint(bp(7)).unwrap();
    s.add_breakpoint(bp(9)).unwrap();
    let m = code_map(0x5555_5555_5000);
    let addrs = s.trap_addresses(&m).unwrap();
    s.start_program(99, m).unwrap();
    for a in addrs {
        s.arm_trap(a, 0x4855).unwrap();
    }
    assert_eq!(s.record_stop(StopStatus::Stopped(SIGTRAP), 0x5555_5555_5142), Ok(StopKind::Breakpoint(0x5555_5555_5141)));
    s
}

#[test]
fn run_stops_at_line_7() {
    let s = stopped_at_line_7();
    let pos = s.location_of(0x5555_5555_5141).unwrap();
    assert_eq!(pos.path, MAIN);
    assert_eq!(pos.line_number, 7);
    assert_eq!(pos.to_text(), "/abs/path/main.c:7");
}

#[test]
fn continue_steps_over_and_stops_again() {
    let mut s = stopped_at_line_7();
    assert_eq!(
        s.resume_plan(0x5555_5555_5142),
        Ok(ResumePlan::StepOver { address: 0x5555_5555_5141, original: 0x4855, rearm: 0x48cc })
    );
    assert_eq!(s.record_stop(StopStatus::Stopped(SIGTRAP), 0x5555_5555_5153), Ok(StopKind::Breakpoint(0x5555_5555_5152)));
    assert_eq!(s.location_of(0x5555_5555_5152).unwrap().line_number, 9);
    // The trap at line 7 is still recorded for the next hit.
    assert_eq!(s.program().unwrap().original_word(0x5555_5555_5141), Some(0x4855));
}

#[test]
fn continue_until_exit() {
    let mut s = stopped_at_line_7();
    assert_eq!(s.record_stop(StopStatus::Exited(0), 0), Err(DebugError::ChildExited));
    assert!(s.program().is_none());
    assert_eq!(s.resume_plan(0).unwrap_err(), DebugError::NoProgramRunning);
    assert_eq!(s.record_stop(StopStatus::Other, 0), Err(DebugError::NoProgramRunning));
    // The binary and its breakpoints stay for the next run.
    assert_eq!(s.check_run(), Ok(()));
}

#[test]
fn location_does_not_depend_on_load_address() {
    for begin in [0x5555_5555_5000u64, 0x40_0000 + 0x1000, 0x7f12_3456_7000] {
        let mut s = loaded();
        s.add_breakpoint(bp(9)).unwrap();
        let m = code_map(begin);
        let addrs = s.trap_addresses(&m).unwrap();
        s.start_program(5, m).unwrap();
        s.arm_trap(addrs[0], 0x90).unwrap();
        let pos = s.location_of(addrs[0]).unwrap();
        assert_eq!(pos.path, MAIN);
        assert_eq!(pos.line_number, 9);
    }
}

#[test]
fn location_of_unknown_address() {
    let s = stopped_at_line_7();
    assert_eq!(s.location_of(0x5555_5555_5143).unwrap_err(), DebugError::SourceNotFound);
    assert_eq!(s.location_of(0x10).unwrap_err(), DebugError::SourceNotFound);
}

#[test]
fn reload_same_binary_keeps_everything() {
    let mut s = loaded();
    s.add_breakpoint(bp(7)).unwrap();
    s.add_breakpoint(bp(9)).unwrap();
    s.load("/abs/path/hello".to_string(), hello_rows(), ());
    assert_eq!(s.breakpoints().len(), 2);
    let t = s.breakpoint_table().unwrap();
    assert_eq!(t.len(), 4);
    assert_eq!(t.get(&bp(5)), Some(0x1139));
    assert_eq!(t.get(&bp(7)), Some(0x1141));
    assert_eq!(t.get(&bp(9)), Some(0x1152));
    assert_eq!(t.get(&bp(10)), Some(0x1159));
}

#[test]
fn reload_other_binary_drops_foreign_breakpoints() {
    let mut s = stopped_at_line_7();
    let rows = vec![row(0x2000, 7), row(0x2010, 8)];
    s.load("/abs/path/other".to_string(), rows, ());
    assert!(s.program().is_none());
    assert_eq!(s.breakpoints().len(), 1);
    assert!(s.breakpoints()[0] == bp(7));
    assert_eq!(s.binary_path().unwrap(), "/abs/path/other");
}

#[test]
fn print_shows_low_32_bits() {
    assert_eq!(variable_value(42), 42);
    assert_eq!(variable_value(0x7fff_0000_0000_002a), 42);
    assert_eq!(variable_value(-1), u32::MAX);
    assert_eq!(variable_value(0x1_0000_0000), 0);
}

#[test]
fn error_messages() {
    assert_eq!(DebugError::NoBinaryLoaded.message(), "Please load a binary first");
    assert_eq!(DebugError::NoProgramRunning.message(), "You need to run a program first");
    assert_eq!(DebugError::NoBreakpoints.message(), "Please set at least one breakpoint first");
    assert_eq!(DebugError::VariableNotFound.message(), "Couldn't find the variable");
    assert_eq!(DebugError::SourceNotFound.message(), "Couldn't find the source code for the address");
}
