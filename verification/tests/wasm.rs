use lib::wasm::encode::{
    assemble_module, emit_block, emit_br, emit_br_if, emit_call, emit_const, emit_else, emit_end, emit_if,
    emit_local_get, emit_local_set, emit_loop, emit_opcode, emit_return, encode_function_body, encode_functype,
    leb128_s, leb128_u, write_section, FuncType, WasmFunction,
};

#[test]
fn leb128_u_single_byte() {
    let mut buf = Vec::new();
    leb128_u(&mut buf, 42);
    assert_eq!(buf, &[42]);
}

#[test]
fn leb128_u_multibyte() {
    let mut buf = Vec::new();
    leb128_u(&mut buf, 300);
    assert_eq!(buf, &[0xAC, 0x02]);
}

#[test]
fn leb128_s_negative() {
    let mut buf = Vec::new();
    leb128_s(&mut buf, -1);
    assert_eq!(buf, &[0x7F]);
}

#[test]
fn leb128_s_positive() {
    let mut buf = Vec::new();
    leb128_s(&mut buf, 42);
    assert_eq!(buf, &[42]);
}

#[test]
fn leb128_s_needs_sign_byte() {
    let mut buf = Vec::new();
    leb128_s(&mut buf, 64);
    assert_eq!(buf, &[0xC0, 0x00]);
    buf.clear();
    leb128_s(&mut buf, -65);
    assert_eq!(buf, &[0xBF, 0x7F]);
}

#[test]
fn instruction_emitters_produce_expected_bytes() {
    let mut code = Vec::new();
    emit_local_get(&mut code, 1);
    emit_local_set(&mut code, 200);
    emit_const(&mut code, false, -1);
    emit_const(&mut code, true, 128);
    emit_br(&mut code, 0);
    emit_br_if(&mut code, 2);
    emit_block(&mut code);
    emit_loop(&mut code);
    emit_if(&mut code);
    emit_else(&mut code);
    emit_end(&mut code);
    emit_return(&mut code);
    emit_call(&mut code, 3);
    emit_opcode(&mut code, 0x6A, None);
    emit_opcode(&mut code, 0x41, Some(5));
    assert_eq!(
        code,
        vec![
            0x20, 0x01, 0x21, 0xC8, 0x01, 0x41, 0x7F, 0x42, 0x80, 0x01, 0x0C, 0x00, 0x0D, 0x02, 0x02, 0x40, 0x03,
            0x40, 0x04, 0x40, 0x05, 0x0B, 0x0F, 0x10, 0x03, 0x6A, 0x41, 0x05
        ]
    );
}

#[test]
fn section_and_functype_layout() {
    let mut out = Vec::new();
    write_section(&mut out, 0x0A, &[1, 2, 3]);
    assert_eq!(out, vec![0x0A, 0x03, 1, 2, 3]);
    let mut ft = Vec::new();
    encode_functype(&mut ft, &[0x7F, 0x7F], &[0x7E]);
    assert_eq!(ft, vec![0x60, 0x02, 0x7F, 0x7F, 0x01, 0x7E]);
}

#[test]
fn function_body_groups_runs_of_locals() {
    let wf = WasmFunction {
        name: "f".to_string(),
        func_idx: 0,
        local_types: vec![0x7F, 0x7F, 0x7E, 0x7F],
        code: vec![0x20, 0x00],
    };
    let body = encode_function_body(&wf);
    assert_eq!(body, vec![0x0A, 0x03, 0x02, 0x7F, 0x01, 0x7E, 0x01, 0x7F, 0x20, 0x00, 0x0B]);
    let empty = WasmFunction { name: "g".to_string(), func_idx: 0, local_types: vec![], code: vec![] };
    assert_eq!(encode_function_body(&empty), vec![0x02, 0x00, 0x0B]);
}

#[test]
fn empty_module_is_header_only() {
    let m = assemble_module(&[], &[]);
    assert_eq!(m, vec![0x00, 0x61, 0x73, 0x6D, 0x01, 0x00, 0x00, 0x00]);
}

#[test]
fn module_shares_equal_signatures() {
    let sigs = vec![
        FuncType { params: vec![0x7F], results: vec![0x7F] },
        FuncType { params: vec![], results: vec![] },
    ];
    let fs = vec![
        WasmFunction { name: "a".to_string(), func_idx: 0, local_types: vec![], code: vec![0x20, 0x00] },
        WasmFunction { name: "b".to_string(), func_idx: 1, local_types: vec![], code: vec![] },
        WasmFunction { name: "c".to_string(), func_idx: 0, local_types: vec![], code: vec![0x20, 0x00] },
    ];
    let m = assemble_module(&sigs, &fs);
    let expected: Vec<u8> = vec![
        0x00, 0x61, 0x73, 0x6D, 0x01, 0x00, 0x00, 0x00,
        // type section: two distinct signatures
        0x01, 0x09, 0x02, 0x60, 0x01, 0x7F, 0x01, 0x7F, 0x60, 0x00, 0x00,
        // function section: type indices 0, 1, 0
        0x03, 0x04, 0x03, 0x00, 0x01, 0x00,
        // export section
        0x07, 0x0D, 0x03, 0x01, b'a', 0x00, 0x00, 0x01, b'b', 0x00, 0x01, 0x01, b'c', 0x00, 0x02,
        // code section
        0x0A, 0x0E, 0x03, 0x04, 0x00, 0x20, 0x00, 0x0B, 0x02, 0x00, 0x0B, 0x04, 0x00, 0x20, 0x00, 0x0B,
    ];
    assert_eq!(m, expected);
}
