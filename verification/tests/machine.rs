use natrium::error::{Error, InvalidInstructionCtx};
use natrium::opcodes::Op;
use natrium::s0::{FnDef, GlobalValue, S0};
use natrium::vm::mem::{
    round_up_to_multiple, stack_idx_to_vm_addr, vm_addr_to_stack_idx, Heap, ManagedMemory, Width,
    HEAP_START, STACK_START,
};
use natrium::vm::ops::{format_char, format_int, parse_uint, scan_token};
use natrium::vm::state::{FloatReply, FloatRequest};
use natrium::vm::{library_instruction, R0Vm, MAX_STACK_SIZE};

fn named(name: &str) -> GlobalValue {
    GlobalValue { is_const: true, bytes: name.as_bytes().to_vec() }
}

/// A module of one function, `_start`, without locals.
fn entry(ins: Vec<Op>) -> S0 {
    S0 {
        globals: vec![named("_start")],
        functions: vec![FnDef { name: 0, ret_slots: 0, param_slots: 0, loc_slots: 0, ins }],
    }
}

fn run(ins: Vec<Op>) -> (Result<(), Error>, Vec<u64>, Vec<u8>) {
    run_on(ins, "")
}

fn run_on(ins: Vec<Op>, input: &str) -> (Result<(), Error>, Vec<u64>, Vec<u8>) {
    let s0 = entry(ins);
    let mut vm = R0Vm::new(&s0, input.as_bytes().to_vec()).unwrap();
    let res = vm.run_to_end();
    (res, vm.stack()[3..].to_vec(), vm.stdout().clone())
}

fn neg(x: i64) -> u64 {
    x as u64
}

#[test]
fn fresh_machine() {
    let s0 = S0 {
        globals: vec![named("_start")],
        functions: vec![FnDef { name: 0, ret_slots: 0, param_slots: 0, loc_slots: 2, ins: vec![] }],
    };
    let vm = R0Vm::new(&s0, vec![]).unwrap();
    assert_eq!((vm.fn_id(), vm.ip(), vm.bp(), vm.sp()), (0, 0, 0, 5));
    assert_eq!(vm.stack(), &[u64::MAX, u64::MAX, u64::MAX, 0, 0][..]);
    assert!(vm.is_at_end());
    assert!(vm.stdout().is_empty());
}

#[test]
fn load_failures() {
    let none = S0 { globals: vec![], functions: vec![] };
    assert!(matches!(R0Vm::new(&none, vec![]), Err(Error::NoEntryPoint)));
    let unnamed = S0 {
        globals: vec![named("_start")],
        functions: vec![FnDef { name: 3, ret_slots: 0, param_slots: 0, loc_slots: 0, ins: vec![] }],
    };
    assert!(matches!(R0Vm::new(&unnamed, vec![]), Err(Error::InvalidGlobalIndex(3))));
    let empty_global = S0 {
        globals: vec![named("_start"), named("")],
        functions: vec![FnDef { name: 0, ret_slots: 0, param_slots: 0, loc_slots: 0, ins: vec![] }],
    };
    assert!(matches!(R0Vm::new(&empty_global, vec![]), Err(Error::AllocZero)));
    let too_many_locals = S0 {
        globals: vec![named("_start")],
        functions: vec![FnDef {
            name: 0,
            ret_slots: 0,
            param_slots: 0,
            loc_slots: MAX_STACK_SIZE as u32 - 2,
            ins: vec![],
        }],
    };
    assert!(matches!(R0Vm::new(&too_many_locals, vec![]), Err(Error::StackOverflow)));
}

#[test]
fn globals_lie_in_the_heap() {
    let s0 = S0 {
        globals: vec![named("_start"), named("12345678"), named("x")],
        functions: vec![FnDef {
            name: 0,
            ret_slots: 0,
            param_slots: 0,
            loc_slots: 0,
            ins: vec![Op::GlobA(0), Op::GlobA(1), Op::GlobA(2), Op::GlobA(1), Op::Load8],
        }],
    };
    let mut vm = R0Vm::new(&s0, vec![]).unwrap();
    assert_eq!(vm.run_to_end(), Ok(()));
    // six bytes at the heap start, the next buffer at the next multiple of
    // 8, and the one behind a buffer that ends on a multiple of 8 at its end
    assert_eq!(vm.stack()[3..], [HEAP_START, HEAP_START + 8, HEAP_START + 16, b'1' as u64][..]);
}

#[test]
fn integer_arithmetic_wraps() {
    let (res, stack, _) = run(vec![Op::Push(u64::MAX), Op::Push(2), Op::AddI]);
    assert_eq!((res, stack), (Ok(()), vec![1]));
    let (_, stack, _) = run(vec![Op::Push(1), Op::Push(2), Op::SubI]);
    assert_eq!(stack, vec![u64::MAX]);
    let (_, stack, _) = run(vec![Op::Push(1 << 63), Op::Push(2), Op::MulI]);
    assert_eq!(stack, vec![0]);
    let (_, stack, _) = run(vec![Op::Push(5), Op::NegI]);
    assert_eq!(stack, vec![neg(-5)]);
}

#[test]
fn division() {
    let (_, stack, _) = run(vec![Op::Push(neg(-7)), Op::Push(2), Op::DivI]);
    assert_eq!(stack, vec![neg(-3)]);
    let (_, stack, _) = run(vec![Op::Push(neg(-7)), Op::Push(2), Op::DivU]);
    assert_eq!(stack, vec![neg(-7) / 2]);
    let (res, stack, _) = run(vec![Op::Push(neg(i64::MIN)), Op::Push(neg(-1)), Op::DivI]);
    assert_eq!((res, stack), (Ok(()), vec![neg(i64::MIN)]));
    let (res, stack, _) = run(vec![Op::Push(1), Op::Push(0), Op::DivI]);
    assert_eq!((res, stack), (Err(Error::DivZero), vec![1, 0]));
    let (res, _, _) = run(vec![Op::Push(1), Op::Push(0), Op::DivU]);
    assert_eq!(res, Err(Error::DivZero));
}

#[test]
fn shifts_and_bits() {
    let (_, stack, _) = run(vec![Op::Push(1), Op::Push(4), Op::Shl]);
    assert_eq!(stack, vec![16]);
    let (_, stack, _) = run(vec![Op::Push(1), Op::Push(64 + 4), Op::Shl]);
    assert_eq!(stack, vec![16]);
    let (_, stack, _) = run(vec![Op::Push(neg(-16)), Op::Push(2), Op::Shr]);
    assert_eq!(stack, vec![neg(-4)]);
    let (_, stack, _) = run(vec![Op::Push(neg(-16)), Op::Push(2), Op::ShrL]);
    assert_eq!(stack, vec![neg(-16) >> 2]);
    let (_, stack, _) = run(vec![Op::Push(0b1100), Op::Push(0b1010), Op::And]);
    assert_eq!(stack, vec![0b1000]);
    let (_, stack, _) = run(vec![Op::Push(0b1100), Op::Push(0b1010), Op::Or]);
    assert_eq!(stack, vec![0b1110]);
    let (_, stack, _) = run(vec![Op::Push(0b1100), Op::Push(0b1010), Op::Xor]);
    assert_eq!(stack, vec![0b0110]);
    let (_, stack, _) = run(vec![Op::Push(0), Op::Not, Op::Push(7), Op::Not]);
    assert_eq!(stack, vec![1, 0]);
}

#[test]
fn comparisons() {
    let (_, stack, _) = run(vec![Op::Push(neg(-1)), Op::Push(1), Op::CmpI]);
    assert_eq!(stack, vec![u64::MAX]);
    let (_, stack, _) = run(vec![Op::Push(neg(-1)), Op::Push(1), Op::CmpU]);
    assert_eq!(stack, vec![1]);
    let (_, stack, _) = run(vec![Op::Push(3), Op::Push(3), Op::CmpI]);
    assert_eq!(stack, vec![0]);
    let (_, stack, _) = run(vec![Op::Push(neg(-1)), Op::SetLt, Op::Push(neg(-1)), Op::SetGt]);
    assert_eq!(stack, vec![1, 0]);
    let (_, stack, _) = run(vec![Op::Push(1), Op::SetLt, Op::Push(1), Op::SetGt]);
    assert_eq!(stack, vec![0, 1]);
    let (_, stack, _) = run(vec![Op::Push(0), Op::SetLt, Op::Push(0), Op::SetGt]);
    assert_eq!(stack, vec![0, 0]);
}

/// Whether a branch on `x` is taken.
fn taken(branch: Op, x: u64) -> bool {
    let (res, stack, _) = run(vec![Op::Push(x), branch, Op::Push(10), Op::Push(20)]);
    assert_eq!(res, Ok(()));
    stack == vec![20]
}

#[test]
fn conditional_branches() {
    let (minus, zero, plus) = (neg(-3), 0, 3);
    assert_eq!([taken(Op::Bz(1), minus), taken(Op::Bz(1), zero), taken(Op::Bz(1), plus)], [false, true, false]);
    assert_eq!([taken(Op::BrFalse(1), minus), taken(Op::BrFalse(1), zero), taken(Op::BrFalse(1), plus)], [false, true, false]);
    assert_eq!([taken(Op::Bnz(1), minus), taken(Op::Bnz(1), zero), taken(Op::Bnz(1), plus)], [true, false, true]);
    assert_eq!([taken(Op::BrTrue(1), minus), taken(Op::BrTrue(1), zero), taken(Op::BrTrue(1), plus)], [true, false, true]);
    assert_eq!([taken(Op::Bl(1), minus), taken(Op::Bl(1), zero), taken(Op::Bl(1), plus)], [true, false, false]);
    assert_eq!([taken(Op::Bg(1), minus), taken(Op::Bg(1), zero), taken(Op::Bg(1), plus)], [false, false, true]);
    assert_eq!([taken(Op::Blz(1), minus), taken(Op::Blz(1), zero), taken(Op::Blz(1), plus)], [true, true, false]);
    assert_eq!([taken(Op::Bgz(1), minus), taken(Op::Bgz(1), zero), taken(Op::Bgz(1), plus)], [false, true, true]);
}

#[test]
fn branch_targets() {
    // a jump to the end of the function is a jump off the end
    let (res, stack, _) = run(vec![Op::Push(1), Op::Br(1), Op::Push(2)]);
    assert_eq!((res, stack), (Ok(()), vec![1]));
    let (res, _, _) = run(vec![Op::Br(2), Op::Nop]);
    assert_eq!(res, Err(Error::InvalidInstructionOffset(3)));
    let (res, _, _) = run(vec![Op::Br(-2)]);
    assert_eq!(res, Err(Error::InvalidInstructionOffset(usize::MAX)));
    // a refused branch keeps the word that it tested
    let (res, stack, _) = run(vec![Op::Push(0), Op::Bz(9)]);
    assert_eq!((res, stack), (Err(Error::InvalidInstructionOffset(11)), vec![0]));
}

#[test]
fn stack_limits() {
    let (res, _, _) = run(vec![Op::Pop]);
    assert_eq!(res, Err(Error::StackUnderflow));
    let (res, _, _) = run(vec![Op::Push(1), Op::PopN(2)]);
    assert_eq!(res, Err(Error::StackUnderflow));
    let (res, _, _) = run(vec![Op::Dup]);
    assert_eq!(res, Err(Error::StackUnderflow));
    let (res, stack, _) = run(vec![Op::Push(1), Op::Push(2), Op::Push(3), Op::PopN(2), Op::Dup]);
    assert_eq!((res, stack), (Ok(()), vec![1, 1]));
    let room = MAX_STACK_SIZE as u32 - 3;
    let (res, stack, _) = run(vec![Op::StackAlloc(room), Op::Push(1)]);
    assert_eq!((res, stack.len()), (Err(Error::StackOverflow), room as usize));
    let (res, _, _) = run(vec![Op::StackAlloc(room + 1)]);
    assert_eq!(res, Err(Error::StackOverflow));
}

#[test]
fn address_producers() {
    let s0 = S0 {
        globals: vec![named("_start"), named("f")],
        functions: vec![
            FnDef {
                name: 0,
                ret_slots: 0,
                param_slots: 0,
                loc_slots: 2,
                ins: vec![Op::LocA(0), Op::LocA(1), Op::StackAlloc(1), Op::Push(7), Op::Call(1)],
            },
            FnDef {
                name: 1,
                ret_slots: 1,
                param_slots: 1,
                loc_slots: 0,
                ins: vec![Op::ArgA(0), Op::ArgA(1), Op::ArgA(2)],
            },
        ],
    };
    let mut vm = R0Vm::new(&s0, vec![]).unwrap();
    // the return slot and the argument have addresses, the saved base
    // pointer behind them has none
    assert_eq!(vm.run_to_end(), Err(Error::InvalidArgIndex(2)));
    let slot = |i: u64| STACK_START + 8 * i;
    // locals at 3 and 4; scratch: two addresses, the return slot, the
    // argument; the frame of `f` at 9
    assert_eq!(vm.bp(), 9);
    assert_eq!(vm.stack()[5..7], [slot(3), slot(4)][..]);
    assert_eq!(vm.stack()[12..], [slot(7), slot(8)][..]);
    // the first scratch slot is no local
    let s0 = S0 {
        globals: vec![named("_start")],
        functions: vec![FnDef {
            name: 0,
            ret_slots: 0,
            param_slots: 0,
            loc_slots: 2,
            ins: vec![Op::LocA(1), Op::LocA(2)],
        }],
    };
    let mut vm = R0Vm::new(&s0, vec![]).unwrap();
    assert_eq!(vm.run_to_end(), Err(Error::InvalidLocalIndex(2)));
    assert_eq!(vm.stack()[5..], [slot(4)][..]);
    let (res, stack, _) = run(vec![Op::LocA(0)]);
    assert_eq!(res, Err(Error::InvalidLocalIndex(0)));
    assert_eq!(stack, Vec::<u64>::new());
    let (res, _, _) = run(vec![Op::ArgA(0)]);
    assert_eq!(res, Err(Error::InvalidArgIndex(0)));
    let (res, _, _) = run(vec![Op::LocA(1)]);
    assert_eq!(res, Err(Error::InvalidLocalIndex(1)));
    let (res, _, _) = run(vec![Op::GlobA(1)]);
    assert_eq!(res, Err(Error::InvalidGlobalIndex(1)));
}

#[test]
fn memory_failures() {
    let (res, stack, _) = run(vec![Op::Push(HEAP_START + 1000), Op::Load8]);
    assert_eq!((res, stack), (Err(Error::InvalidAddress(HEAP_START + 1000)), vec![HEAP_START + 1000]));
    let (res, _, _) = run(vec![Op::Push(8), Op::Load8]);
    assert_eq!(res, Err(Error::InvalidAddress(8)));
    // the name of `_start` has six bytes
    let (res, _, _) = run(vec![Op::GlobA(0), Op::Load64]);
    assert_eq!(res, Err(Error::InvalidAddress(HEAP_START)));
    let (res, _, _) = run(vec![Op::GlobA(0), Op::Push(1), Op::AddI, Op::Load32]);
    assert_eq!(res, Err(Error::UnalignedAccess(HEAP_START + 1)));
    let (res, _, _) = run(vec![Op::Push(STACK_START + 4), Op::Push(1), Op::Store64]);
    assert_eq!(res, Err(Error::UnalignedAccess(STACK_START + 4)));
    let (res, _, _) = run(vec![Op::Push(STACK_START + 8 * 1000), Op::Load64]);
    assert_eq!(res, Err(Error::InvalidStackOffset(1000, 1000)));
    let (res, _, _) = run(vec![Op::Push(0), Op::Load64]);
    assert_eq!(res, Err(Error::InvalidAddress(0)));
}

#[test]
fn heap_allocation() {
    let (res, stack, _) = run(vec![
        Op::Push(3),
        Op::Alloc,
        Op::Push(1),
        Op::Alloc,
        Op::Dup,
        Op::Push(0xabcd),
        Op::Store8,
        Op::Dup,
        Op::Load8,
    ]);
    assert_eq!(res, Ok(()));
    // behind the six bytes of the name, at multiples of 64
    assert_eq!(stack, vec![HEAP_START + 64, HEAP_START + 128, 0xcd]);
    let (res, stack, _) = run(vec![Op::Push(0), Op::Alloc]);
    assert_eq!((res, stack), (Err(Error::AllocZero), vec![0]));
    let (res, _, _) = run(vec![Op::Push(u64::MAX - 7), Op::Alloc]);
    assert_eq!(res, Err(Error::OutOfMemory));
    let (res, _, _) = run(vec![Op::Push(5), Op::Free]);
    assert_eq!(res, Err(Error::InvalidDeallocation));
    let (res, _, _) = run(vec![Op::Push(8), Op::Alloc, Op::Push(1), Op::AddI, Op::Free]);
    assert_eq!(res, Err(Error::InvalidDeallocation));
    let (res, stack, _) = run(vec![Op::Push(8), Op::Alloc, Op::Dup, Op::Free, Op::Load64]);
    assert_eq!((res, stack), (Err(Error::InvalidAddress(HEAP_START + 64)), vec![HEAP_START + 64]));
}

#[test]
fn calls_and_returns() {
    let (res, _, _) = run(vec![Op::Call(7)]);
    assert_eq!(res, Err(Error::InvalidFnId(7)));
    // the entry frame has no caller
    let (res, _, _) = run(vec![Op::Ret]);
    assert_eq!(res, Err(Error::InvalidFnId(u32::MAX)));
    let s0 = S0 {
        globals: vec![named("_start"), named("f")],
        functions: vec![
            FnDef { name: 0, ret_slots: 0, param_slots: 0, loc_slots: 0, ins: vec![Op::Call(1)] },
            FnDef { name: 1, ret_slots: 0, param_slots: 0, loc_slots: 2, ins: vec![Op::Nop] },
        ],
    };
    let mut vm = R0Vm::new(&s0, vec![]).unwrap();
    assert_eq!(vm.step(), Ok(Op::Call(1)));
    assert_eq!((vm.fn_id(), vm.ip(), vm.bp(), vm.sp()), (1, 0, 3, 8));
    assert_eq!(vm.stack()[3..6], [0, 1, 0][..]);
    assert_eq!(vm.run_to_end(), Err(Error::ControlReachesEnd(1)));
    // a function that returns with more parameters than the stack holds
    let s0 = S0 {
        globals: vec![named("_start"), named("f")],
        functions: vec![
            FnDef { name: 0, ret_slots: 0, param_slots: 0, loc_slots: 0, ins: vec![Op::Call(1)] },
            FnDef { name: 1, ret_slots: 0, param_slots: 9, loc_slots: 0, ins: vec![Op::Ret] },
        ],
    };
    let mut vm = R0Vm::new(&s0, vec![]).unwrap();
    assert_eq!(vm.run_to_end(), Err(Error::StackUnderflow));
}

#[test]
fn calls_by_name() {
    let s0 = S0 {
        globals: vec![named("_start"), named("f"), named("nobody"), named("putint"), named("putln")],
        functions: vec![
            FnDef {
                name: 0,
                ret_slots: 0,
                param_slots: 0,
                loc_slots: 0,
                ins: vec![Op::CallName(1), Op::Push(42), Op::CallName(3), Op::CallName(2)],
            },
            FnDef { name: 1, ret_slots: 0, param_slots: 0, loc_slots: 0, ins: vec![Op::Ret] },
        ],
    };
    let mut vm = R0Vm::new(&s0, vec![]).unwrap();
    assert_eq!(vm.resolve(Op::CallName(3)), Op::PrintI);
    assert_eq!(vm.resolve(Op::CallName(1)), Op::CallName(1));
    assert_eq!(vm.resolve(Op::CallName(4)), Op::CallName(4));
    assert_eq!(vm.run_to_end(), Err(Error::UnknownFunction(2)));
    assert_eq!(vm.stdout(), &b"42".to_vec());
    assert_eq!(vm.get_fn_by_name(&b"f".to_vec()), Some(1));
    assert_eq!(vm.get_fn_by_name(&b"g".to_vec()), None);
    // a name that is no library name and that no function has is unknown,
    // and the machine is left as it was behind the instruction
    let s0 = S0 {
        globals: vec![named("_start"), named("putln")],
        functions: vec![FnDef {
            name: 0,
            ret_slots: 0,
            param_slots: 0,
            loc_slots: 0,
            ins: vec![Op::CallName(1)],
        }],
    };
    let mut vm = R0Vm::new(&s0, vec![]).unwrap();
    assert_eq!(vm.run_to_end(), Err(Error::UnknownFunction(1)));
    assert_eq!(vm.stdout(), &Vec::<u8>::new());
    assert_eq!((vm.fn_id(), vm.ip(), vm.bp(), vm.sp()), (0, 1, 0, 3));
    // a function of that name is called
    let s0 = S0 {
        globals: vec![named("_start"), named("putln")],
        functions: vec![
            FnDef {
                name: 0,
                ret_slots: 0,
                param_slots: 0,
                loc_slots: 0,
                ins: vec![Op::CallName(1)],
            },
            FnDef {
                name: 1,
                ret_slots: 0,
                param_slots: 0,
                loc_slots: 0,
                ins: vec![Op::Push(13), Op::PrintC, Op::Push(10), Op::PrintC, Op::Ret],
            },
        ],
    };
    let mut vm = R0Vm::new(&s0, vec![]).unwrap();
    assert_eq!(vm.run_to_end(), Ok(()));
    assert_eq!(vm.stdout(), &b"\r\n".to_vec());
    let (res, _, _) = run(vec![Op::CallName(9)]);
    assert_eq!(res, Err(Error::InvalidFnId(9)));
}

#[test]
fn library_names() {
    let cases: Vec<(&str, Option<Op>)> = vec![
        ("putint", Some(Op::PrintI)),
        ("putdouble", Some(Op::PrintF)),
        ("putstr", Some(Op::PrintS)),
        ("putchar", Some(Op::PrintC)),
        ("getint", Some(Op::ScanI)),
        ("getdouble", Some(Op::ScanF)),
        ("getchar", Some(Op::ScanC)),
        ("putfloat", None),
        ("putln", None),
        ("main", None),
        ("", None),
    ];
    for (name, op) in cases {
        assert_eq!(library_instruction(&name.as_bytes().to_vec()), op);
    }
}

#[test]
fn printing() {
    let (res, stack, out) = run(vec![
        Op::Push(neg(-12)),
        Op::PrintI,
        Op::PrintLn,
        Op::Push(0x141),
        Op::PrintC,
        Op::Push(0xe9),
        Op::PrintC,
        Op::Push(0),
        Op::PrintS,
        Op::GlobA(0),
        Op::PrintS,
    ]);
    assert_eq!(res, Ok(()));
    assert!(stack.is_empty());
    assert_eq!(String::from_utf8(out).unwrap(), "-12\r\nA\u{e9}_start_start");
    let (res, _, _) = run(vec![Op::Push(3), Op::PrintS]);
    assert_eq!(res, Err(Error::InvalidFnId(3)));
    let (res, _, _) = run(vec![Op::Push(1 << 40), Op::PrintS]);
    assert_eq!(res, Err(Error::ArithmeticErr));
    let (res, _, _) = run(vec![Op::PrintI]);
    assert_eq!(res, Err(Error::StackUnderflow));
}

#[test]
fn scanning() {
    let (res, stack, _) = run_on(vec![Op::ScanI, Op::ScanC, Op::ScanI, Op::ScanC], " \t12\n+7 x");
    assert_eq!((res, stack), (Ok(()), vec![12, b'+' as u64, 7, b'x' as u64]));
    let (res, stack, _) = run_on(vec![Op::ScanI], "-5");
    assert_eq!((res, stack), (Err(Error::ParseError), vec![]));
    let (res, _, _) = run_on(vec![Op::ScanI], "");
    assert_eq!(res, Err(Error::ParseError));
    let (res, _, _) = run_on(vec![Op::ScanI], "18446744073709551616");
    assert_eq!(res, Err(Error::ParseError));
    let (res, stack, _) = run_on(vec![Op::ScanI], "18446744073709551615");
    assert_eq!((res, stack), (Ok(()), vec![u64::MAX]));
    let (res, _, _) = run_on(vec![Op::ScanC], "");
    assert_eq!(res, Err(Error::IoError));
}

#[test]
fn input_can_be_fed() {
    let s0 = entry(vec![Op::ScanC, Op::ScanC]);
    let mut vm = R0Vm::new(&s0, b"a".to_vec()).unwrap();
    assert_eq!(vm.step(), Ok(Op::ScanC));
    assert_eq!(vm.step(), Err(Error::IoError));
    assert_eq!(vm.ip(), 2);
    vm.feed_stdin(b"bc");
    assert_eq!(vm.exec_instruction(Op::ScanC, None), Ok(()));
    assert_eq!(vm.stack()[3..], [b'a' as u64, b'b' as u64][..]);
}

#[test]
fn float_instructions_need_the_float_unit() {
    let s0 = entry(vec![Op::Push(1), Op::Push(2), Op::AddF, Op::PrintF, Op::ScanF]);
    let mut vm = R0Vm::new(&s0, b"  1.5 ".to_vec()).unwrap();
    assert!(vm.float_request().is_none());
    vm.step().unwrap();
    vm.step().unwrap();
    assert!(matches!(vm.float_request(), Some(FloatRequest::Binary(Op::AddF, 1, 2))));
    let refused = Error::InvalidInstruction(InvalidInstructionCtx { inst: 0x24, fn_id: 0, inst_off: 3 });
    assert_eq!(vm.step(), Err(refused));
    assert_eq!(vm.stack()[3..], [1, 2][..]);
    assert_eq!(vm.exec_instruction(Op::AddF, Some(FloatReply::Bits(77))), Ok(()));
    assert_eq!(vm.stack()[3..], [77][..]);
    assert!(matches!(vm.float_request(), Some(FloatRequest::Print(77))));
    assert_eq!(vm.step_with(Some(FloatReply::Text(b"7.7".to_vec()))), Ok(Op::PrintF));
    assert_eq!(vm.stdout(), &b"7.7".to_vec());
    match vm.float_request() {
        Some(FloatRequest::Parse(token)) => assert_eq!(token, b"1.5".to_vec()),
        _ => panic!("no request"),
    }
    assert_eq!(vm.exec_instruction(Op::ScanF, Some(FloatReply::NoParse)), Err(Error::ParseError));
    assert_eq!(vm.step_with(Some(FloatReply::Bits(15))), Ok(Op::ScanF));
    assert_eq!(vm.stack()[3..], [15][..]);
    assert_eq!(vm.exec_instruction(Op::ScanC, None), Err(Error::IoError));
}

#[test]
fn reserved_and_halting_instructions() {
    let (res, _, _) = run(vec![Op::Nop, Op::BrA(0)]);
    let ctx = InvalidInstructionCtx { inst: 0x40, fn_id: 0, inst_off: 2 };
    assert_eq!(res, Err(Error::InvalidInstruction(ctx)));
    let (res, stack, _) = run(vec![Op::Push(1), Op::Panic, Op::Push(2)]);
    assert_eq!((res, stack), (Err(Error::Halt), vec![1]));
}

#[test]
fn run_with_a_float_unit_and_an_inspector() {
    let unit = |q: FloatRequest| match q {
        FloatRequest::Unary(_, x) => FloatReply::Bits(x + 100),
        _ => FloatReply::NoParse,
    };
    let s0 = entry(vec![Op::Push(1), Op::IToF, Op::Push(2), Op::Push(3)]);
    let mut vm = R0Vm::new(&s0, vec![]).unwrap();
    assert_eq!(vm.run_to_end_with(&unit), Ok(()));
    assert_eq!(vm.stack()[3..], [101, 2, 3][..]);
    let mut vm = R0Vm::new(&s0, vec![]).unwrap();
    assert_eq!(vm.run_to_end_inspect(&unit, &|vm: &R0Vm| vm.ip() < 3), Ok(()));
    assert_eq!(vm.stack()[3..], [101, 2][..]);
    assert!(!vm.is_at_end());
    assert_eq!(vm.run_to_end_inspect(&unit, &|_: &R0Vm| true), Ok(()));
    assert!(vm.is_at_end());
}

#[test]
fn frames_of_callers() {
    let s0 = S0 {
        globals: vec![named("_start"), named("f")],
        functions: vec![
            FnDef {
                name: 0,
                ret_slots: 0,
                param_slots: 0,
                loc_slots: 1,
                ins: vec![Op::Push(5), Op::Call(1)],
            },
            FnDef { name: 1, ret_slots: 0, param_slots: 1, loc_slots: 0, ins: vec![Op::Nop] },
        ],
    };
    let mut vm = R0Vm::new(&s0, vec![]).unwrap();
    vm.step().unwrap();
    vm.step().unwrap();
    let top = vm.debug_stack();
    assert_eq!((top.sp(), top.bp(), top.fn_info().name), (8, 5, 1));
    assert!(top.has_stacktrace() && top.has_bounds());
    assert_eq!(top.shown_slots(MAX_STACK_SIZE), (4, 13));
    let same = vm.debug_frame(0).unwrap();
    assert_eq!((same.sp(), same.bp(), same.fn_info().name), (8, 5, 1));
    let caller = vm.debug_frame(1).unwrap().stacktrace(false).bounds(false);
    assert_eq!((caller.sp(), caller.bp(), caller.fn_info().name), (5, 0, 0));
    assert!(!caller.has_stacktrace() && !caller.has_bounds());
    assert!(vm.debug_frame(2).is_err());
    assert_eq!(vm.stack_slot_get(4), Ok(5));
    assert!(vm.stack_slot_get(MAX_STACK_SIZE).is_err());
    assert_eq!(vm.get_fn_name_by_id(1), Some("f".to_string()));
    assert_eq!(vm.get_fn_name_by_id(2), None);
}

#[test]
fn a_broken_chain_of_frames_is_reported() {
    let s0 = S0 {
        globals: vec![named("_start"), named("f")],
        functions: vec![
            FnDef { name: 0, ret_slots: 0, param_slots: 0, loc_slots: 0, ins: vec![Op::Call(1)] },
            FnDef {
                name: 1,
                ret_slots: 0,
                param_slots: 0,
                loc_slots: 0,
                // the saved base pointer is overwritten with the slot of the frame itself
                ins: vec![Op::Push(STACK_START + 8 * 3), Op::Push(3), Op::Store64, Op::Ret],
            },
        ],
    };
    let mut vm = R0Vm::new(&s0, vec![]).unwrap();
    for _ in 0..4 {
        vm.step().unwrap();
    }
    let (trace, corrupted) = vm.stack_trace();
    assert!(corrupted);
    assert_eq!(trace.len(), 2);
    assert_eq!(vm.step(), Err(Error::StackUnderflow));
}

#[test]
fn address_arithmetic() {
    assert_eq!(stack_idx_to_vm_addr(2), STACK_START + 16);
    assert_eq!(vm_addr_to_stack_idx(STACK_START + 21), (2, 5));
    assert_eq!(round_up_to_multiple(13, 8), 16);
    assert_eq!(round_up_to_multiple(16, 8), 16);
    assert_eq!(round_up_to_multiple(17, 8), 24);
    assert_eq!(round_up_to_multiple(0, 64), 0);
    assert_eq!(round_up_to_multiple(1, 64), 64);
    assert_eq!(round_up_to_multiple(u64::MAX, 1), u64::MAX);
}

#[test]
fn heap_by_itself() {
    let mut heap = Heap::new();
    // an alignment is a power of two
    assert_eq!(heap.alloc_heap(4, 0), Err(Error::AllocLayoutError));
    assert_eq!(heap.alloc_heap(4, 24), Err(Error::AllocLayoutError));
    assert_eq!(heap.alloc_heap(0, 3), Err(Error::AllocLayoutError));
    assert_eq!(heap.insert_copy(&[1], 0), Err(Error::AllocLayoutError));
    assert_eq!(heap.len(), 0);
    assert_eq!(heap.alloc_heap(0, 8), Err(Error::AllocZero));
    assert_eq!(heap.alloc_heap(12, 8), Ok(HEAP_START));
    assert_eq!(heap.insert_copy(&[1, 2, 3, 4, 5, 6, 7, 8, 9], 8), Ok(HEAP_START + 16));
    assert_eq!(heap.insert_copy(&[], 8), Err(Error::AllocZero));
    assert_eq!(heap.alloc_heap(1, 64), Ok(HEAP_START + 64));
    assert_eq!(heap.len(), 3);
    assert_eq!(heap.block_addr(1), HEAP_START + 16);
    assert_eq!(heap.load(HEAP_START + 16, Width::W32), Ok(0x04030201));
    assert_eq!(heap.load(HEAP_START + 16, Width::W64), Ok(0x0807060504030201));
    assert_eq!(heap.load(HEAP_START + 24, Width::W8), Ok(9));
    assert_eq!(heap.load(HEAP_START + 24, Width::W16), Err(Error::InvalidAddress(HEAP_START + 24)));
    assert_eq!(heap.get_heap_mem_managed_ref(HEAP_START + 20, Width::W16), Ok((1, 4)));
    assert_eq!(heap.store(HEAP_START + 18, Width::W16, 0xaabbccdd), Ok(()));
    assert_eq!(heap.load(HEAP_START + 16, Width::W64), Ok(0x08070605ccdd0201));
    assert_eq!(heap.store(HEAP_START + 17, Width::W16, 0), Err(Error::UnalignedAccess(HEAP_START + 17)));
    assert_eq!(heap.load(HEAP_START - 8, Width::W8), Err(Error::InvalidAddress(HEAP_START - 8)));
    assert_eq!(heap.free_heap(HEAP_START + 17), Err(Error::InvalidDeallocation));
    assert_eq!(heap.free_heap(HEAP_START + 16), Ok(()));
    assert_eq!(heap.len(), 2);
    // the bytes between the first piece and the last are nobody's now
    assert_eq!(heap.load(HEAP_START + 16, Width::W8), Err(Error::InvalidAddress(HEAP_START + 16)));
    assert_eq!(heap.load(HEAP_START + 64, Width::W8), Ok(0));
}

#[test]
fn the_heap_of_a_machine() {
    let s0 = entry(vec![]);
    let mut vm = R0Vm::new(&s0, vec![]).unwrap();
    // the name of the entry function lies at the heap start
    assert_eq!(vm.get_heap_mem_managed_ref(HEAP_START + 2, Width::W16), Ok((0, 2)));
    assert_eq!(
        vm.get_heap_mem_managed_ref(HEAP_START + 2, Width::W32),
        Err(Error::UnalignedAccess(HEAP_START + 2))
    );
    assert_eq!(vm.alloc_heap(0, 8), Err(Error::AllocZero));
    assert_eq!(vm.alloc_heap(8, 0), Err(Error::AllocLayoutError));
    assert_eq!(vm.alloc_heap(8, 12), Err(Error::AllocLayoutError));
    assert_eq!(vm.alloc_heap(16, 8), Ok(HEAP_START + 8));
    assert_eq!(vm.access_mem_set(HEAP_START + 8, Width::W64, 7), Ok(()));
    assert_eq!(vm.access_mem_get(HEAP_START + 8, Width::W64), Ok(7));
    assert_eq!(vm.get_heap_mem_managed_ref(HEAP_START + 16, Width::W64), Ok((1, 8)));
    assert_eq!(vm.free_heap(HEAP_START + 9), Err(Error::InvalidDeallocation));
    assert_eq!(vm.free_heap(HEAP_START + 8), Ok(()));
    assert_eq!(
        vm.access_mem_get(HEAP_START + 8, Width::W64),
        Err(Error::InvalidAddress(HEAP_START + 8))
    );
    assert_eq!(vm.get_global_by_id(0).map(|g| g.bytes.clone()), Ok(b"_start".to_vec()));
    assert_eq!(vm.get_global_by_id(1).map(|g| g.bytes.clone()), Err(Error::InvalidFnId(1)));
}

#[test]
fn managed_memory() {
    assert!(matches!(ManagedMemory::allocate(0), Err(Error::AllocZero)));
    assert!(matches!(ManagedMemory::from_slice(&[]), Err(Error::AllocZero)));
    let mut mem = ManagedMemory::from_slice(&[1, 2, 3, 4, 5, 6, 7, 8, 9, 10]).unwrap();
    assert_eq!(mem.len(), 10);
    assert_eq!(mem.read(1, Width::W16), 0x0302);
    assert_eq!(mem.read(2, Width::W64), 0x0a09080706050403);
    mem.write(0, Width::W32, 0x1_aabbccdd);
    assert_eq!(mem.get_slice(), &[0xdd, 0xcc, 0xbb, 0xaa, 5, 6, 7, 8, 9, 10][..]);
    let zero = ManagedMemory::allocate(3).unwrap();
    assert_eq!(zero.get_slice(), &[0, 0, 0][..]);
    assert_eq!((Width::W8.bytes(), Width::W16.bytes(), Width::W32.bytes(), Width::W64.bytes()), (1, 2, 4, 8));
    assert_eq!(Width::W16.mask(), 0xffff);
}

#[test]
fn numbers_as_text() {
    assert_eq!(format_int(0), b"0".to_vec());
    assert_eq!(format_int(1234567890), b"1234567890".to_vec());
    assert_eq!(format_int(u64::MAX), b"-1".to_vec());
    assert_eq!(format_int(1 << 63), b"-9223372036854775808".to_vec());
    assert_eq!(format_int((1 << 63) - 1), b"9223372036854775807".to_vec());
    assert_eq!(format_char(0x100 + 65), b"A".to_vec());
    assert_eq!(format_char(0xff), "\u{ff}".as_bytes().to_vec());
    assert_eq!(format_char(0x80), "\u{80}".as_bytes().to_vec());
    assert_eq!(parse_uint(&b"0042".to_vec()), Some(42));
    assert_eq!(parse_uint(&b"+42".to_vec()), Some(42));
    assert_eq!(parse_uint(&b"+".to_vec()), None);
    assert_eq!(parse_uint(&b"".to_vec()), None);
    assert_eq!(parse_uint(&b"4 2".to_vec()), None);
    assert_eq!(parse_uint(&b"++1".to_vec()), None);
}

#[test]
fn tokens_of_the_input() {
    let input = b"  ab\tcd\r\n".to_vec();
    assert_eq!(scan_token(&input, 0), (b"ab".to_vec(), 5));
    assert_eq!(scan_token(&input, 5), (b"cd".to_vec(), 8));
    assert_eq!(scan_token(&input, 8), (b"".to_vec(), 9));
    assert_eq!(scan_token(&input, 9), (b"".to_vec(), 9));
    assert_eq!(scan_token(&b"xyz".to_vec(), 1), (b"yz".to_vec(), 3));
}
