use natrium::error::Error;
use natrium::opcodes::Op;
use natrium::s0::io::{Reader, UnexpectedEof, WriteBinary};
use natrium::s0::{FnDef, GlobalValue, S0};

fn sample() -> S0 {
    S0 {
        globals: vec![
            GlobalValue { is_const: true, bytes: b"_start".to_vec() },
            GlobalValue { is_const: false, bytes: vec![0; 8] },
        ],
        functions: vec![FnDef {
            name: 0,
            ret_slots: 0,
            param_slots: 0,
            loc_slots: 2,
            ins: vec![Op::Push(0x0102030405060708), Op::LocA(1), Op::Br(-2), Op::Ret],
        }],
    }
}

#[test]
fn every_code_decodes_to_itself() {
    let mut known = 0;
    for code in 0..=255u8 {
        for param in [0u64, 1, 0x7fff_ffff, 0xffff_fffe, 0x1_0000_0001, u64::MAX] {
            if let Some(op) = Op::from_code(code, param) {
                assert_eq!(op.code(), code);
                assert_eq!(Op::from_code(op.code(), op.code_param()), Some(op));
                let low = param & 0xffff_ffff;
                match Op::param_size(code) {
                    0 => assert_eq!(op.code_param(), 0),
                    4 => assert_eq!(op.code_param(), low),
                    _ => assert_eq!(op.code_param(), param),
                }
                if param == 0 {
                    known += 1;
                }
            }
        }
    }
    assert_eq!(known, 65);
}

#[test]
fn branch_offsets_are_sign_extended() {
    assert_eq!(Op::Br(-2).code_param(), 0xffff_fffe);
    assert_eq!(Op::from_code(0x41, 0xffff_fffe), Some(Op::Br(-2)));
    assert_eq!(Op::from_code(0x41, 0x1_ffff_fffe), Some(Op::Br(-2)));
    assert_eq!(Op::from_code(0x4b, 5), Some(Op::BrFalse(5)));
    assert_eq!(Op::from_code(0x4c, 0x8000_0000), Some(Op::BrTrue(i32::MIN)));
}

#[test]
fn immediate_widths() {
    assert_eq!(Op::param_size(0x01), 8);
    assert_eq!(Op::param_size(0x40), 8);
    assert_eq!(Op::param_size(0x03), 4);
    assert_eq!(Op::param_size(0x0a), 4);
    assert_eq!(Op::param_size(0x41), 4);
    assert_eq!(Op::param_size(0x48), 4);
    // a return has no immediate
    assert_eq!(Op::param_size(0x49), 0);
    assert_eq!(Op::param_size(0x4a), 4);
    assert_eq!(Op::param_size(0x4c), 4);
    assert_eq!(Op::param_size(0x4d), 0);
    assert_eq!(Op::param_size(0x00), 0);
    assert_eq!(Op::param_size(0xfe), 0);
}

#[test]
fn absolute_branch_is_reserved() {
    assert_eq!(Op::BrA(7).code(), 0x40);
    assert_eq!(Op::from_code(0x40, 7), None);
    assert_eq!(Op::from_code(0x05, 0), None);
    assert_eq!(Op::from_code(0xff, 0), None);
}

#[test]
fn module_bytes_are_big_endian() {
    let m = sample();
    let mut bytes = vec![];
    m.write_binary(&mut bytes);
    let expected: Vec<u8> = vec![
        0x72, 0x30, 0x3b, 0x3e, // magic
        0, 0, 0, 1, // version
        0, 0, 0, 2, // globals
        1, 0, 0, 0, 6, b'_', b's', b't', b'a', b'r', b't', //
        0, 0, 0, 0, 8, 0, 0, 0, 0, 0, 0, 0, 0, //
        0, 0, 0, 1, // functions
        0, 0, 0, 0, 0, 0, 0, 0, 0, 0, 0, 0, 0, 0, 0, 2, //
        0, 0, 0, 4, // instructions
        0x01, 1, 2, 3, 4, 5, 6, 7, 8, //
        0x08, 0, 0, 0, 1, //
        0x41, 0xff, 0xff, 0xff, 0xfe, //
        0x49,
    ];
    assert_eq!(bytes, expected);
    assert_eq!(m.to_bytes(), expected);
}

#[test]
fn module_round_trip() {
    let m = sample();
    let bytes = m.to_bytes();
    let mut reader = Reader::new(&bytes);
    assert_eq!(S0::read_binary(&mut reader), Ok(Some(m.clone())));
    assert_eq!(reader.pos(), bytes.len());
    assert_eq!(S0::from_bytes(&bytes), Ok(m));
}

#[test]
fn reading_stops_behind_the_value() {
    let mut bytes = vec![];
    Op::Push(9).write_binary(&mut bytes);
    Op::Pop.write_binary(&mut bytes);
    let mut reader = Reader::new(&bytes);
    assert_eq!(Op::read_binary(&mut reader), Ok(Some(Op::Push(9))));
    assert_eq!(reader.pos(), 9);
    assert_eq!(Op::read_binary(&mut reader), Ok(Some(Op::Pop)));
    assert_eq!(Op::read_binary(&mut reader), Err(UnexpectedEof));
}

#[test]
fn wrong_magic_or_version_is_no_module() {
    let mut bytes = sample().to_bytes();
    bytes[3] ^= 1;
    assert_eq!(S0::read_binary(&mut Reader::new(&bytes)), Ok(None));
    assert_eq!(S0::from_bytes(&bytes), Err(Error::ParseError));
    let mut bytes = sample().to_bytes();
    bytes[7] = 2;
    assert_eq!(S0::read_binary(&mut Reader::new(&bytes)), Ok(None));
}

#[test]
fn unknown_instruction_is_no_module() {
    let mut bytes = sample().to_bytes();
    let n = bytes.len();
    bytes[n - 1] = 0x05;
    assert_eq!(S0::read_binary(&mut Reader::new(&bytes)), Ok(None));
    // the reserved absolute branch is read with its operand and then refused
    let mut bytes = vec![];
    Op::BrA(3).write_binary(&mut bytes);
    assert_eq!(bytes.len(), 9);
    assert_eq!(Op::read_binary(&mut Reader::new(&bytes)), Ok(None));
    assert_eq!(Op::read_binary(&mut Reader::new(&bytes[..8])), Err(UnexpectedEof));
}

#[test]
fn truncated_module_ends_early() {
    let bytes = sample().to_bytes();
    for cut in 0..bytes.len() {
        assert_eq!(S0::read_binary(&mut Reader::new(&bytes[..cut])), Err(UnexpectedEof));
        assert_eq!(S0::from_bytes(&bytes[..cut]), Err(Error::ParseError));
    }
}

#[test]
fn flag_of_a_global_is_any_byte_but_zero() {
    let bytes = vec![7u8, 0, 0, 0, 1, 42];
    assert_eq!(
        GlobalValue::read_binary(&mut Reader::new(&bytes)),
        Ok(Some(GlobalValue { is_const: true, bytes: vec![42] }))
    );
}
