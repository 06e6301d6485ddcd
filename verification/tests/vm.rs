use natrium::error::Error;
use natrium::opcodes::Op;
use natrium::opcodes::Op::{
    AddI, Alloc, ArgA, Br, Bz, Call, CmpI, Dup, GlobA, IToF, LocA, Load16, Load32, Load64, Load8,
    MulF, Panic, Push, Ret, ScanC, ScanF, ScanI, StackAlloc, Store16, Store32, Store64, Store8,
};
use natrium::s0::{FnDef, GlobalValue, S0};
use natrium::util::IntoBytes;
use natrium::vm::state::{FloatReply, FloatRequest};
use natrium::vm::{R0Vm, StackInfo};

/// A module of globals and functions; the name of each function lies in a
/// constant global behind the globals given.
fn s0_bin(values: Vec<(bool, Vec<u8>)>, fns: Vec<(&str, u32, u32, u32, Vec<Op>)>) -> S0 {
    let mut globals = vec![];
    for (is_const, bytes) in values {
        globals.push(GlobalValue { is_const, bytes });
    }
    let mut functions = vec![];
    for (name, loc_slots, param_slots, ret_slots, ins) in fns {
        let name_idx = globals.len();
        globals.push(GlobalValue { is_const: true, bytes: name.into_bytes() });
        functions.push(FnDef { name: name_idx as u32, loc_slots, param_slots, ret_slots, ins });
    }
    S0 { globals, functions }
}

/// What a float unit answers to the machine.
fn fpu(req: FloatRequest) -> FloatReply {
    match req {
        FloatRequest::Binary(op, a, b) => {
            let (x, y) = (f64::from_bits(a), f64::from_bits(b));
            FloatReply::Bits(match op {
                Op::AddF => (x + y).to_bits(),
                Op::SubF => (x - y).to_bits(),
                Op::MulF => (x * y).to_bits(),
                Op::DivF => (x / y).to_bits(),
                _ => {
                    if x < y {
                        u64::MAX
                    } else if x > y {
                        1
                    } else {
                        0
                    }
                }
            })
        }
        FloatRequest::Unary(op, a) => FloatReply::Bits(match op {
            Op::NegF => (-f64::from_bits(a)).to_bits(),
            Op::IToF => ((a as i64) as f64).to_bits(),
            _ => (f64::from_bits(a) as i64) as u64,
        }),
        FloatRequest::Print(a) => FloatReply::Text(format!("{:.6}", f64::from_bits(a)).into_bytes()),
        FloatRequest::Parse(token) => {
            match std::str::from_utf8(&token).ok().and_then(|s| s.parse::<f64>().ok()) {
                Some(v) => FloatReply::Bits(v.to_bits()),
                None => FloatReply::NoParse,
            }
        }
    }
}

fn step_float(vm: &mut R0Vm) -> Result<Op, Error> {
    let reply = vm.float_request().map(fpu);
    vm.step_with(reply)
}

fn run_float(vm: &mut R0Vm) -> Result<(), Error> {
    loop {
        match step_float(vm) {
            Ok(_) => (),
            Err(Error::ControlReachesEnd(0)) => break Ok(()),
            Err(e) => break Err(e),
        }
    }
}

#[test]
pub fn base_test() {
    let s0 = s0_bin(
        vec![],
        vec![("_start", 0, 0, 0, vec![Push(1), Push(2), AddI, IToF, Push(0.4f64.to_bits()), MulF])],
    );
    let mut vm = R0Vm::new(&s0, vec![]).unwrap();
    for _ in 0..3 {
        step_float(&mut vm).unwrap();
    }
    let stack = vm.stack();
    assert_eq!(stack[3..], vec![3u64][..]);
    for _ in 0..3 {
        step_float(&mut vm).unwrap();
    }
    let stack = vm.stack();
    assert!((f64::from_bits(stack[3]) - 1.2f64).abs() < 1e-10);
}

#[test]
pub fn panic_test() {
    let s0 = s0_bin(vec![], vec![("_start", 0, 0, 0, vec![Panic])]);
    let mut vm = R0Vm::new(&s0, vec![]).unwrap();
    let e = vm.run_to_end().unwrap_err();
    assert!(matches!(e, Error::Halt))
}

#[test]
pub fn call_test() {
    let s0 = s0_bin(
        vec![],
        vec![
            ("_start", 0, 0, 0, vec![StackAlloc(1), Push(1), Push(2), Call(1)]),
            (
                "main",
                1,
                2,
                1,
                vec![ArgA(0), ArgA(1), Load64, ArgA(2), Load64, AddI, Store64, Ret],
            ),
        ],
    );
    let mut vm = R0Vm::new(&s0, vec![]).unwrap();
    vm.run_to_end().unwrap();
    assert_eq!(vm.stack()[3..], vec![3u64][..])
}

#[test]
pub fn simple_local_var_test() {
    let s0 = s0_bin(
        vec![],
        vec![(
            "_start",
            1,
            0,
            0,
            vec![
                // store 1
                LocA(0),
                Push(1),
                Store32,
                // store 2
                LocA(0),
                Push(4),
                AddI,
                Push(2),
                Store16,
                // store 3
                LocA(0),
                Push(6),
                AddI,
                Push(3),
                Store8,
                // load 1
                LocA(0),
                Load32,
                LocA(0),
                Push(4),
                AddI,
                Load16,
                LocA(0),
                Push(6),
                AddI,
                Load8,
            ],
        )],
    );
    let mut vm = R0Vm::new(&s0, vec![]).unwrap();
    vm.run_to_end().unwrap();
    assert_eq!(vm.stack()[3], 0x00_03_0002_00000001,);
    assert_eq!(vm.stack()[4..], vec![1u64, 2, 3][..]);
}

#[test]
pub fn simple_alloc_test() {
    let s0 = s0_bin(
        vec![],
        vec![("_start", 0, 0, 0, vec![Push(8), Alloc, Dup, Push(0x10008086), Store64, Load64])],
    );
    let mut vm = R0Vm::new(&s0, vec![]).unwrap();
    vm.run_to_end().unwrap();
    assert_eq!(vm.stack()[3..], vec![0x10008086u64][..])
}

#[test]
pub fn simple_branch_test() {
    let s0 = s0_bin(
        vec![],
        vec![(
            "_start",
            0,
            0,
            0,
            vec![Push(0), Push(1), CmpI, Bz(2), Br(2), Push(3), Br(2), Push(5)],
        )],
    );
    let mut vm = R0Vm::new(&s0, vec![]).unwrap();
    vm.run_to_end().unwrap();
    assert_eq!(vm.stack()[3..], vec![5u64][..])
}

#[test]
pub fn simple_stdin_test() {
    let s0 = s0_bin(vec![], vec![("_start", 0, 0, 0, vec![ScanC, ScanF, ScanI])]);
    let stdin = "A3.1415926e3 1234".as_bytes().to_vec();
    let mut vm = R0Vm::new(&s0, stdin).unwrap();
    run_float(&mut vm).unwrap();
    assert_eq!(vm.stack()[3], b'A' as u64);
    assert!((f64::from_bits(vm.stack()[4]) - 3.1415926e3f64).abs() < 1e-10);
    assert_eq!(vm.stack()[5], 1234u64);
}

#[test]
pub fn simple_global_test() {
    let s0 = s0_bin(
        vec![(false, 0x1234u64.into_bytes()), (false, 0x5678u64.into_bytes())],
        vec![("_start", 0, 0, 0, vec![GlobA(0), Load64, GlobA(1), Load64])],
    );
    let mut vm = R0Vm::new(&s0, vec![]).unwrap();
    vm.run_to_end().unwrap();
    assert_eq!(vm.stack()[3..], vec![0x1234u64, 0x5678u64][..])
}

#[test]
pub fn stacktrace_test() {
    let s0 = s0_bin(
        vec![],
        vec![
            ("_start", 0, 0, 0, vec![Call(1)]),
            ("main", 0, 0, 0, vec![StackAlloc(1), Push(1), Push(2), Call(2), Ret]),
            (
                "test",
                1,
                2,
                1,
                vec![ArgA(0), ArgA(1), Load64, ArgA(2), Load64, AddI, Store64, Ret],
            ),
        ],
    );
    let mut vm = R0Vm::new(&s0, vec![]).unwrap();
    for _ in 0..9 {
        vm.step().unwrap();
    }
    let (stacktrace, corrupted) = vm.stack_trace();
    let expected = vec![
        StackInfo { fn_name: Some("test".into()), fn_id: 2, inst: 4 },
        StackInfo { fn_name: Some("main".into()), fn_id: 1, inst: 4 },
        StackInfo { fn_name: Some("_start".into()), fn_id: 0, inst: 1 },
    ];
    assert!(!corrupted);
    assert_eq!(stacktrace, expected);
}
