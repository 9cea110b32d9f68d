use debugito::address::{file_relative_address, runtime_address, select_executable_mapping, MapEntry};
use debugito::error::DebugError;
use debugito::tracer::{add_trap_instruction, ResumePlan, RunningProgram, StopKind, StopStatus, SIGTRAP, TRAP_INSTRUCTION};

fn map(begin: u64, offset: u64) -> MapEntry {
    MapEntry { begin, end: begin + 0x1000, offset, executable: true, pathname: "/abs/path/hello".to_string() }
}

#[test]
fn translation_formula() {
    let m = map(0x5555_5555_5000, 0x1000);
    assert_eq!(runtime_address(0x1139, &m), Some(0x5555_5555_5139));
    assert_eq!(file_relative_address(0x5555_5555_5139, &m), Some(0x1139));
    let m2 = map(0x40_0000, 0);
    assert_eq!(runtime_address(0x1139, &m2), Some(0x40_1139));
    assert_eq!(file_relative_address(0x40_1139, &m2), Some(0x1139));
}

#[test]
fn translation_round_trip() {
    let m = map(0x7f00_0000_2000, 0x2000);
    for va in [0x2000u64, 0x2001, 0x2fff, 0x1000, 0] {
        let ra = runtime_address(va, &m).unwrap();
        assert_eq!(file_relative_address(ra, &m), Some(va));
    }
}

#[test]
fn translation_out_of_range() {
    let m = map(0x1000, 0x5000);
    assert_eq!(runtime_address(0x10, &m), None);
    assert_eq!(runtime_address(0x4000, &m), Some(0));
    let high = map(u64::MAX - 0xfff, 0);
    assert_eq!(runtime_address(0x1000, &high), None);
    assert_eq!(file_relative_address(0x10, &map(0x1000, 0)), None);
    assert_eq!(file_relative_address(u64::MAX, &map(0, 1)), None);
}

#[test]
fn executable_mapping_selection() {
    let maps = vec![
        MapEntry { begin: 0x1000, end: 0x2000, offset: 0, executable: false, pathname: "/abs/path/hello".to_string() },
        MapEntry { begin: 0x2000, end: 0x3000, offset: 0x1000, executable: true, pathname: "/lib/libc.so.6".to_string() },
        MapEntry { begin: 0x3000, end: 0x4000, offset: 0x1000, executable: true, pathname: "/abs/path/hello".to_string() },
        MapEntry { begin: 0x5000, end: 0x6000, offset: 0x3000, executable: true, pathname: "/abs/path/hello".to_string() },
    ];
    assert_eq!(select_executable_mapping(&maps, &"/abs/path/hello".to_string()), Some(2));
    assert_eq!(select_executable_mapping(&maps, &"/lib/libc.so.6".to_string()), Some(1));
    assert_eq!(select_executable_mapping(&maps, &"/abs/path/other".to_string()), None);
    assert_eq!(select_executable_mapping(&Vec::new(), &"/abs/path/hello".to_string()), None);
}

#[test]
fn trap_word() {
    assert_eq!(TRAP_INSTRUCTION, 0xCC);
    assert_eq!(add_trap_instruction(0x1122_3344_5566_7788), 0x1122_3344_5566_77CC);
    assert_eq!(add_trap_instruction(0), 0xCC);
    assert_eq!(add_trap_instruction(-1), -0x34);
    assert_eq!(add_trap_instruction(-1) & 0xFF, 0xCC);
    assert_eq!(add_trap_instruction(0x48_89e5_55) & !0xFF, 0x48_89e5_00);
}

#[test]
fn arming_keeps_first_original() {
    let mut p = RunningProgram::new(42, map(0x40_0000, 0));
    assert_eq!(p.pid(), 42);
    assert_eq!(p.arm(0x40_1141, 0x1234_5678_9abc_de55), Some(0x1234_5678_9abc_decc));
    assert_eq!(p.arm(0x40_1141, 0x1234_5678_9abc_decc), None);
    assert_eq!(p.original_word(0x40_1141), Some(0x1234_5678_9abc_de55));
    assert_eq!(p.original_word(0x40_1142), None);
}

#[test]
fn stop_at_trap_then_step_over() {
    let mut p = RunningProgram::new(42, map(0x40_0000, 0));
    p.arm(0x40_1141, 0x0000_00e8_c789_4855);
    // Before the first stop there is nothing to step over.
    assert_eq!(p.resume_plan(0x40_1142), ResumePlan::Continue);
    assert_eq!(p.record_stop(StopStatus::Stopped(SIGTRAP), 0x40_1142), Ok(StopKind::Breakpoint(0x40_1141)));
    assert_eq!(p.last_status(), StopStatus::Stopped(SIGTRAP));
    assert_eq!(
        p.resume_plan(0x40_1142),
        ResumePlan::StepOver { address: 0x40_1141, original: 0x0000_00e8_c789_4855, rearm: 0x0000_00e8_c789_48cc }
    );
}

#[test]
fn other_stops_are_not_hits() {
    let mut p = RunningProgram::new(7, map(0x40_0000, 0));
    p.arm(0x40_1141, 0x55);
    assert_eq!(p.record_stop(StopStatus::Stopped(SIGTRAP), 0x40_1150), Ok(StopKind::Other));
    assert_eq!(p.resume_plan(0x40_1150), ResumePlan::Continue);
    assert_eq!(p.record_stop(StopStatus::Stopped(11), 0x40_1142), Ok(StopKind::Other));
    assert_eq!(p.resume_plan(0x40_1142), ResumePlan::Continue);
    assert_eq!(p.record_stop(StopStatus::Other, 0x40_1142), Ok(StopKind::Other));
    assert_eq!(p.record_stop(StopStatus::Stopped(SIGTRAP), 0), Ok(StopKind::Other));
}

#[test]
fn exit_during_wait_is_an_error() {
    let mut p = RunningProgram::new(7, map(0x40_0000, 0));
    assert_eq!(p.record_stop(StopStatus::Exited(0), 0), Err(DebugError::ChildExited));
    assert_eq!(p.last_status(), StopStatus::Exited(0));
}
