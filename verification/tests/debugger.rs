use natrium::opcodes::Op;
use natrium::s0::{FnDef, GlobalValue, S0};
use natrium::vm::debug::{
    cur_breakpoint, parse_breakpoint_ref, resolve_breakpoint, run_to_breakpoint, run_to_return,
    Breakpoint, BreakpointError, Breakpoints,
};
use natrium::vm::state::{FloatReply, FloatRequest};
use natrium::vm::R0Vm;

fn no_floats(_: FloatRequest) -> FloatReply {
    FloatReply::NoParse
}

fn global(name: &str) -> GlobalValue {
    GlobalValue { is_const: true, bytes: name.as_bytes().to_vec() }
}

/// `_start` calls `f` and goes on for two instructions; `f` runs two
/// instructions and returns.
fn caller_and_callee() -> S0 {
    S0 {
        globals: vec![global("_start"), global("f")],
        functions: vec![
            FnDef {
                name: 0,
                ret_slots: 0,
                param_slots: 0,
                loc_slots: 0,
                ins: vec![Op::Call(1), Op::Push(1), Op::Pop],
            },
            FnDef {
                name: 1,
                ret_slots: 0,
                param_slots: 0,
                loc_slots: 0,
                ins: vec![Op::Push(7), Op::Pop, Op::Ret],
            },
        ],
    }
}

fn text(s: &str) -> Vec<u8> {
    s.as_bytes().to_vec()
}

#[test]
fn references_to_places() {
    assert_eq!(parse_breakpoint_ref(&text("main:12")), Some((text("main"), 12)));
    assert_eq!(parse_breakpoint_ref(&text("main")), Some((text("main"), 0)));
    assert_eq!(parse_breakpoint_ref(&text("f:+5")), Some((text("f"), 5)));
    assert_eq!(parse_breakpoint_ref(&text(":4")), Some((text(""), 4)));
    assert_eq!(parse_breakpoint_ref(&text("main:x")), None);
    assert_eq!(parse_breakpoint_ref(&text("main:")), None);
    assert_eq!(parse_breakpoint_ref(&text("a:b:3")), None);
    assert_eq!(parse_breakpoint_ref(&text("f:99999999999999999999999")), None);
}

#[test]
fn places_of_a_machine() {
    let s0 = caller_and_callee();
    let vm = R0Vm::new(&s0, vec![]).unwrap();
    assert_eq!(resolve_breakpoint(&vm, &text("f"), 1), Ok(Breakpoint { fn_id: 1, offset: 1 }));
    assert_eq!(resolve_breakpoint(&vm, &text("f"), 2), Ok(Breakpoint { fn_id: 1, offset: 2 }));
    assert_eq!(resolve_breakpoint(&vm, &text("f"), 3), Err(BreakpointError::OffsetTooLarge));
    assert_eq!(resolve_breakpoint(&vm, &text("g"), 0), Err(BreakpointError::NoSuchFunction));
    assert_eq!(
        resolve_breakpoint(&vm, &text("_start"), 0),
        Ok(Breakpoint { fn_id: 0, offset: 0 })
    );
}

#[test]
fn breakpoints_are_numbered() {
    let mut points = Breakpoints::new();
    assert_eq!(points.list(), vec![]);
    assert_eq!(points.at(1, 1), None);
    assert_eq!(points.add(Breakpoint { fn_id: 1, offset: 1 }), Some(0));
    assert_eq!(points.add(Breakpoint { fn_id: 0, offset: 2 }), Some(1));
    assert_eq!(points.at(1, 1), Some(0));
    assert_eq!(points.at(0, 2), Some(1));
    assert_eq!(points.at(0, 1), None);
    // a breakpoint at a place that has one takes its place
    assert_eq!(points.add(Breakpoint { fn_id: 1, offset: 1 }), Some(2));
    assert_eq!(points.at(1, 1), Some(2));
    assert_eq!(
        points.list(),
        vec![(1, Breakpoint { fn_id: 0, offset: 2 }), (2, Breakpoint { fn_id: 1, offset: 1 })]
    );
    assert_eq!(points.remove(0), None);
    assert_eq!(points.remove(2), Some(Breakpoint { fn_id: 1, offset: 1 }));
    assert_eq!(points.at(1, 1), None);
    // the next number lies behind the largest one that is left
    assert_eq!(points.add(Breakpoint { fn_id: 1, offset: 0 }), Some(2));
    assert_eq!(points.remove(1), Some(Breakpoint { fn_id: 0, offset: 2 }));
    assert_eq!(points.remove(2), Some(Breakpoint { fn_id: 1, offset: 0 }));
    assert_eq!(points.add(Breakpoint { fn_id: 1, offset: 0 }), Some(0));
}

#[test]
fn a_run_stops_at_a_breakpoint() {
    let s0 = caller_and_callee();
    let mut vm = R0Vm::new(&s0, vec![]).unwrap();
    let mut points = Breakpoints::new();
    assert_eq!(cur_breakpoint(&vm, &points), None);
    let in_f = points.add(Breakpoint { fn_id: 1, offset: 1 }).unwrap();
    let behind = points.add(Breakpoint { fn_id: 0, offset: 2 }).unwrap();
    assert_eq!(run_to_breakpoint(&mut vm, &no_floats, &points), Ok(()));
    assert_eq!((vm.fn_id(), vm.ip()), (1, 1));
    assert_eq!(cur_breakpoint(&vm, &points), Some(in_f));
    // a run goes on from a breakpoint
    assert_eq!(run_to_breakpoint(&mut vm, &no_floats, &points), Ok(()));
    assert_eq!((vm.fn_id(), vm.ip()), (0, 2));
    assert_eq!(cur_breakpoint(&vm, &points), Some(behind));
    assert_eq!(run_to_breakpoint(&mut vm, &no_floats, &points), Ok(()));
    assert!(vm.is_at_end());
    assert_eq!(cur_breakpoint(&vm, &points), None);
}

#[test]
fn a_run_stops_behind_the_return() {
    let s0 = caller_and_callee();
    let mut vm = R0Vm::new(&s0, vec![]).unwrap();
    let mut points = Breakpoints::new();
    assert_eq!(vm.step(), Ok(Op::Call(1)));
    let frame = vm.bp();
    assert_eq!(run_to_return(&mut vm, &no_floats, &points, frame), Ok(()));
    assert_eq!((vm.fn_id(), vm.ip()), (0, 1));
    // a breakpoint on the way comes first
    let mut vm = R0Vm::new(&s0, vec![]).unwrap();
    let id = points.add(Breakpoint { fn_id: 1, offset: 2 }).unwrap();
    assert_eq!(vm.step(), Ok(Op::Call(1)));
    assert_eq!(vm.bp(), frame);
    assert_eq!(run_to_return(&mut vm, &no_floats, &points, frame), Ok(()));
    assert_eq!((vm.fn_id(), vm.ip()), (1, 2));
    assert_eq!(cur_breakpoint(&vm, &points), Some(id));
    assert_eq!(run_to_return(&mut vm, &no_floats, &points, frame), Ok(()));
    assert_eq!((vm.fn_id(), vm.ip()), (0, 1));
}

#[test]
fn a_run_stops_where_input_is_awaited() {
    // reads a number and a character and prints their sum
    let s0 = S0 {
        globals: vec![global("_start")],
        functions: vec![FnDef {
            name: 0,
            ret_slots: 0,
            param_slots: 0,
            loc_slots: 0,
            ins: vec![Op::Push(1), Op::ScanI, Op::ScanC, Op::AddI, Op::PrintI],
        }],
    };
    let points = Breakpoints::new();
    let mut vm = R0Vm::new(&s0, vec![]).unwrap();
    assert!(!vm.awaits_input());
    assert_eq!(run_to_breakpoint(&mut vm, &no_floats, &points), Ok(()));
    assert_eq!(vm.ip(), 1);
    assert!(vm.awaits_input());
    // a numeral may go on until white space ends it
    vm.feed_stdin(b"  4");
    assert!(vm.awaits_input());
    vm.feed_stdin(b"1");
    assert!(vm.awaits_input());
    vm.feed_stdin(b"\n");
    assert!(!vm.awaits_input());
    assert_eq!(run_to_breakpoint(&mut vm, &no_floats, &points), Ok(()));
    assert_eq!(vm.ip(), 2);
    assert!(vm.awaits_input());
    vm.feed_stdin(b"A");
    assert!(!vm.awaits_input());
    assert_eq!(run_to_breakpoint(&mut vm, &no_floats, &points), Ok(()));
    assert!(vm.is_at_end());
    assert_eq!(vm.stdout(), &b"106".to_vec());
    // where the input has ended, the machine reads what there is
    let mut vm = R0Vm::new(&s0, b"7".to_vec()).unwrap();
    assert_eq!(vm.step(), Ok(Op::Push(1)));
    assert!(vm.awaits_input());
    assert_eq!(vm.step(), Ok(Op::ScanI));
    assert_eq!(vm.step(), Err(natrium::error::Error::IoError));
}
