use sasm::{
    calculate_label_id, collect_labels, decode_opcode, emit_token, gen_executable,
    parse_int_from_string, reg_name_to_num, AsmError, Executable, Instruction, Job, Token,
};
use std::collections::HashMap;

fn job_with(trampoline: bool, entry: Option<&str>) -> Job {
    let mut job = Job::new();
    if trampoline {
        job.trampoline();
    }
    if let Some(e) = entry {
        job.set_entry(e.to_string());
    }
    job
}

fn tokens_of(job: &mut Job, src: &str) -> Result<Vec<Token>, AsmError> {
    job.tokenize(&vec![src.as_bytes().to_vec()])
}

fn assemble_with(trampoline: bool, entry: Option<&str>, src: &str) -> Result<Vec<u8>, AsmError> {
    let mut job = job_with(trampoline, entry);
    let tokens = tokens_of(&mut job, src)?;
    let exec = gen_executable(&tokens)?;
    Ok(exec.bytes().clone())
}

fn assemble(src: &str) -> Result<Vec<u8>, AsmError> {
    assemble_with(false, None, src)
}

#[test]
fn minimal_program() {
    let src = "_start:\n  ldi r0, 0xDE\n  shl r0, 8\n  ldi r0, 0xAD\n  jmp r0\n";
    let bytes = assemble(src).unwrap();
    // `shl r0, 8` is 0x7001 | 0 << 8 | 8 << 4 by the opcode table.
    assert_eq!(bytes, vec![0xDE, 0x40, 0x81, 0x70, 0xAD, 0x40, 0x00, 0x60]);
}

#[test]
fn label_round_trip() {
    let src = ".addr 0x0010\nloop:\n  jmp r0\n.short loop\n";
    let bytes = assemble(src).unwrap();
    assert_eq!(bytes.len(), 0x14);
    assert!(bytes[..0x10].iter().all(|b| *b == 0));
    assert_eq!(&bytes[0x10..0x12], &[0x00, 0x60]);
    assert_eq!(&bytes[0x12..0x14], &[0x10, 0x00]);
}

#[test]
fn pseudo_instruction_sizing() {
    assert_eq!(assemble("push r1").unwrap().len(), 6);
    assert_eq!(assemble("_start:\nldl r0, _start").unwrap().len(), 6);
    assert_eq!(assemble("callf r2, r3").unwrap().len(), 14);
    let src = "_start:\npush r1\nldl r0, _start\ncallf r2, r3\nend:\n.short end\n";
    let mut job = Job::new();
    let tokens = tokens_of(&mut job, src).unwrap();
    assert_eq!(tokens[4], Token::LABEL(calculate_label_id(b"end"), 26));
    let bytes = assemble(src).unwrap();
    assert_eq!(bytes.len(), 28);
    assert_eq!(&bytes[26..28], &[26, 0]);
}

#[test]
fn pseudo_instruction_words() {
    assert_eq!(assemble("push r1").unwrap(), vec![0x03, 0x28, 0x03, 0x28, 0x11, 0x58]);
    assert_eq!(assemble("pop r1").unwrap(), vec![0x81, 0x31, 0x02, 0x28, 0x02, 0x28]);
    assert_eq!(assemble("ldl r2, 0x1234").unwrap(), vec![0x12, 0x42, 0x81, 0x72, 0x34, 0x42]);
    assert_eq!(
        assemble("ret r3").unwrap(),
        vec![0x81, 0x33, 0x02, 0x28, 0x02, 0x28, 0x00, 0x63]
    );
    let call = assemble("call r1").unwrap();
    assert_eq!(call.len(), 34);
    // The return address, 34, is loaded by the `ldl` inside the sequence.
    assert_eq!(&call[14..20], &[0x00, 0x41, 0x81, 0x71, 0x22, 0x41]);
    let callf = assemble("callf r2, r3").unwrap();
    assert_eq!(
        callf,
        vec![0x00, 0x43, 0x81, 0x73, 0x0E, 0x43, 0x03, 0x28, 0x03, 0x28, 0x31, 0x58, 0x00, 0x62]
    );
}

#[test]
fn trampoline_jumps_to_entry() {
    let src = "nop\nmain:\njmp r0\n";
    let bytes = assemble_with(true, Some("main"), src).unwrap();
    assert_eq!(
        bytes,
        vec![0x00, 0x40, 0x81, 0x70, 0x0A, 0x40, 0x00, 0x60, 0x00, 0x00, 0x00, 0x60]
    );
}

#[test]
fn trampoline_dropped_when_entry_comes_first() {
    let src = "main:\nldi r1, 5\njmp r0\n";
    let mut job = job_with(true, Some("main"));
    let tokens = tokens_of(&mut job, src).unwrap();
    assert_eq!(tokens[0], Token::LABEL(calculate_label_id(b"main"), 0));
    let bytes = gen_executable(&tokens).unwrap().bytes().clone();
    assert_eq!(bytes, vec![0x05, 0x41, 0x00, 0x60]);
}

#[test]
fn trampoline_asked_twice_reserves_once() {
    let mut job = job_with(true, Some("main"));
    job.trampoline();
    let bytes = {
        let tokens = tokens_of(&mut job, "nop\nmain:\njmp r0\n").unwrap();
        gen_executable(&tokens).unwrap().bytes().clone()
    };
    assert_eq!(bytes[4], 0x0A);
}

#[test]
fn native_instruction_emits_two_bytes() {
    let labels: HashMap<u64, u16> = HashMap::new();
    let mut exec = Executable::new();
    emit_token(&mut exec, &Token::AND(1, 2), &labels).unwrap();
    assert_eq!(exec.size(), 2);
    assert_eq!(exec.bytes(), &vec![0x20, 0x11]);
    emit_token(&mut exec, &Token::TEST(13), &labels).unwrap();
    assert_eq!(exec.size(), 4);
    assert_eq!(&exec.bytes()[2..], &[0x00, 0x8D]);
}

#[test]
fn every_native_form_encodes() {
    let src = "nop\nand r1, r2\nnot r3\nadd r1, r2\nsub r1, r2\ninc sp\ndec r4\nldb r1, sp\nldw r1, r2\nmov c1, sp\nldi r5, 255\nstb sp, r1\nstw r2, r3\njmp sp\njnz r1, r2\nshr r1, 3\nshl r1, 15\ntest 13\nsetf 2\nclrf 15\n";
    let bytes = assemble(src).unwrap();
    let words: Vec<u16> = bytes.chunks(2).map(|c| c[0] as u16 | (c[1] as u16) << 8).collect();
    assert_eq!(
        words,
        vec![
            0x0000, 0x1120, 0x1301, 0x2120, 0x2121, 0x2802, 0x2403, 0x3180, 0x3121, 0x3A82,
            0x45FF, 0x5810, 0x5231, 0x6800, 0x6121, 0x7130, 0x71F1, 0x8D00, 0x8201, 0x8F02,
        ]
    );
}

#[test]
fn cursor_matches_image_length() {
    let src = "_start:\nldi r0, 1\npush r0\ncall r1\nret r2\n.short 7\n";
    let mut job = Job::new();
    let tokens = tokens_of(&mut job, src).unwrap();
    let exec = gen_executable(&tokens).unwrap();
    assert_eq!(exec.size(), 2 + 6 + 34 + 8 + 2);
    assert_eq!(exec.address() as usize, exec.size());
}

#[test]
fn label_id_packs_groups() {
    assert_eq!(calculate_label_id(b""), 0);
    assert_eq!(calculate_label_id(b"abc"), 0x636261);
    assert_eq!(calculate_label_id(b"abcdefgh"), 0x6867666564636261);
    assert_eq!(calculate_label_id(b"abcdefghi"), 0x6867666564636261 ^ 0x69);
}

#[test]
fn integers_parse() {
    assert_eq!(parse_int_from_string(b"10"), Some(10));
    assert_eq!(parse_int_from_string(b"0x10"), Some(16));
    assert_eq!(parse_int_from_string(b"0xBeEf"), Some(0xBEEF));
    assert_eq!(parse_int_from_string(b"65535"), Some(65535));
    assert_eq!(parse_int_from_string(b"65536"), None);
    assert_eq!(parse_int_from_string(b"0x10000"), None);
    assert_eq!(parse_int_from_string(b"0x"), None);
    assert_eq!(parse_int_from_string(b""), None);
    assert_eq!(parse_int_from_string(b"beef"), None);
    assert_eq!(parse_int_from_string(b"000000000000000000000012"), Some(12));
}

#[test]
fn register_names() {
    assert_eq!(reg_name_to_num(b"sp"), Some(8));
    assert_eq!(reg_name_to_num(b"r0"), Some(0));
    assert_eq!(reg_name_to_num(b"r7"), Some(7));
    assert_eq!(reg_name_to_num(b"c0"), Some(9));
    assert_eq!(reg_name_to_num(b"c1"), Some(10));
    assert_eq!(reg_name_to_num(b"\tr3 "), Some(3));
    assert_eq!(reg_name_to_num(b"x1"), None);
    assert_eq!(reg_name_to_num(b"r12"), None);
    assert_eq!(reg_name_to_num(b"r8"), None);
    assert_eq!(reg_name_to_num(b"r9"), None);
    assert_eq!(reg_name_to_num(b"c2"), None);
    assert_eq!(reg_name_to_num(b"c9"), None);
    assert_eq!(reg_name_to_num(b"r"), None);
}

#[test]
fn executable_buffer_pads_and_overwrites() {
    let mut exec = Executable::new();
    exec.set_address(4);
    exec.push_short(0xBEEF);
    assert_eq!(exec.bytes(), &vec![0, 0, 0, 0, 0xEF, 0xBE]);
    exec.set_address(2);
    exec.push_short(0x1234);
    assert_eq!(exec.bytes(), &vec![0, 0, 0x34, 0x12, 0xEF, 0xBE]);
    assert_eq!(exec.address(), 4);
    exec.push_short(0x5678);
    assert_eq!(exec.bytes(), &vec![0, 0, 0x34, 0x12, 0x78, 0x56]);
    assert_eq!(exec.size(), 6);
}

#[test]
fn blank_lines_and_whitespace_are_ignored() {
    let a = assemble("\n   \n\tnop\r\n  add r1,  r2  \n\n").unwrap();
    assert_eq!(a, vec![0x00, 0x00, 0x20, 0x21]);
}

#[test]
fn sources_concatenate() {
    let mut job = Job::new();
    let tokens = job
        .tokenize(&vec![b"a:\nnop\n".to_vec(), b"b:\n.short a\n.short b\n".to_vec()])
        .unwrap();
    let bytes = gen_executable(&tokens).unwrap().bytes().clone();
    assert_eq!(bytes, vec![0x00, 0x00, 0x00, 0x00, 0x02, 0x00]);
}

#[test]
fn error_no_input() {
    let mut job = Job::new();
    assert_eq!(job.tokenize(&vec![]), Err(AsmError::NoInput));
}

#[test]
fn error_not_ascii() {
    let mut job = Job::new();
    let r = job.tokenize(&vec![b"nop".to_vec(), vec![b'n', 0xC3, 0xA9]]);
    assert_eq!(r, Err(AsmError::NotAscii(1)));
}

#[test]
fn error_arity() {
    assert_eq!(assemble("nop r0"), Err(AsmError::TooManyArguments));
    assert_eq!(assemble("add r0"), Err(AsmError::NotEnoughArguments));
    assert_eq!(assemble("inc r0, r1"), Err(AsmError::TooManyArguments));
    assert_eq!(assemble("push r0, r1"), Err(AsmError::TooManyArguments));
    assert_eq!(assemble(".addr 2, 4"), Err(AsmError::TooManyArguments));
}

#[test]
fn error_unknown_words() {
    assert_eq!(assemble("frob r0"), Err(AsmError::InvalidInstruction));
    assert_eq!(assemble(".frob 1"), Err(AsmError::InvalidDirective));
}

#[test]
fn error_bad_operands() {
    assert_eq!(assemble("ldi r0, 300"), Err(AsmError::InvalidInteger));
    assert_eq!(assemble("test x"), Err(AsmError::InvalidInteger));
    assert_eq!(assemble("inc q1"), Err(AsmError::InvalidRegister));
    assert_eq!(assemble(".addr 3"), Err(AsmError::UnalignedAddress));
    assert_eq!(assemble(".addr zz"), Err(AsmError::InvalidInteger));
}

#[test]
fn error_emit_checks() {
    assert_eq!(assemble("add r0, sp"), Err(AsmError::RegisterOutOfRange));
    assert_eq!(assemble("mov c9, r0"), Err(AsmError::InvalidRegister));
    assert_eq!(assemble("ldb c0, r1"), Err(AsmError::RegisterOutOfRange));
    assert_eq!(assemble("callf r1, r1"), Err(AsmError::SameRegister));
    let id = calculate_label_id(b"nowhere");
    assert_eq!(assemble(".short nowhere"), Err(AsmError::UnknownLabel(id)));
    assert_eq!(assemble("ldl r0, nowhere"), Err(AsmError::UnknownLabel(id)));
}

#[test]
fn error_duplicate_label() {
    let mut job = Job::new();
    let tokens = tokens_of(&mut job, "a:\nnop\na:\n").unwrap();
    let id = calculate_label_id(b"a");
    assert!(matches!(collect_labels(&tokens), Err(AsmError::DuplicateLabel(d)) if d == id));
    assert!(matches!(gen_executable(&tokens), Err(AsmError::DuplicateLabel(_))));
}

#[test]
fn error_size_exceeded() {
    assert_eq!(assemble(".addr 0xFFFE\nnop"), Err(AsmError::SizeExceeded));
    assert!(assemble(".addr 0xFFFC\nnop").is_ok());
}

#[test]
fn assembled_words_decode_back() {
    let src = "nop\nand r1, r2\nnot r3\nadd r1, r2\nsub r1, r2\ninc sp\ndec r4\nldb r1, sp\nldw r1, r2\nmov c1, sp\nldi r5, 255\nstb sp, r1\nstw r2, r3\njmp sp\njnz r1, r2\nshr r1, 3\nshl r1, 15\ntest 13\nsetf 2\nclrf 15\n";
    let bytes = assemble(src).unwrap();
    let kinds: Vec<Option<Instruction>> = bytes
        .chunks(2)
        .map(|c| decode_opcode(c[0] as u16 | (c[1] as u16) << 8))
        .collect();
    let expected = vec![
        Instruction::NOP, Instruction::AND, Instruction::NOT, Instruction::ADD, Instruction::SUB,
        Instruction::INC, Instruction::DEC, Instruction::LDB, Instruction::LDW, Instruction::MOV,
        Instruction::LDI, Instruction::STB, Instruction::STW, Instruction::JMP, Instruction::JNZ,
        Instruction::SHR, Instruction::SHL, Instruction::TEST, Instruction::SETF, Instruction::CLRF,
    ];
    assert_eq!(kinds, expected.into_iter().map(Some).collect::<Vec<_>>());
    // Operand fields come back from the word: `mov c1, sp` holds X = 10, Y = 8.
    let mov = 0x3A82u16;
    assert_eq!((mov & 0x0F00) >> 8, 10);
    assert_eq!((mov & 0x00F0) >> 4, 8);
}

#[test]
fn ldl_operands() {
    let id = calculate_label_id(b"ab");
    assert_eq!(assemble("ldl r0, ab"), Err(AsmError::UnknownLabel(id)));
    // A number past 16 bits stays a number for `ldl`, which cannot load it.
    let mut job = Job::new();
    assert_eq!(tokens_of(&mut job, "ldl r1, 70000").unwrap(), vec![Token::LDL(1, 70000, false)]);
    assert_eq!(assemble("ldl r0, 70000"), Err(AsmError::InvalidInteger));
    // For `.short` it is read as a label.
    let big = calculate_label_id(b"70000");
    let mut job = Job::new();
    assert_eq!(tokens_of(&mut job, ".short 70000").unwrap(), vec![Token::SHORT(big, true)]);
    assert_eq!(assemble(".short 70000"), Err(AsmError::UnknownLabel(big)));
    let mut job = Job::new();
    assert_eq!(
        tokens_of(&mut job, "ldl r1, 0x10000").unwrap(),
        vec![Token::LDL(1, 0x10000, false)]
    );
    let mut job = Job::new();
    let tokens = tokens_of(&mut job, "ldl r1, 25185
ab:
ldl r2, ab
").unwrap();
    assert_eq!(tokens[0], Token::LDL(1, 0x6261, false));
    assert_eq!(tokens[2], Token::LDL(2, id, true));
    // An immediate equal to a label's id stays an immediate.
    let bytes = gen_executable(&tokens).unwrap().bytes().clone();
    assert_eq!(&bytes[..6], &[0x62, 0x41, 0x81, 0x71, 0x61, 0x41]);
    assert_eq!(&bytes[6..], &[0x00, 0x42, 0x81, 0x72, 0x06, 0x42]);
}

#[test]
fn used_job_cannot_pass_the_top() {
    let mut job = job_with(true, Some("main"));
    tokens_of(&mut job, "main:\n.addr 0xFFFE\n").unwrap();
    job.trampoline();
    assert_eq!(tokens_of(&mut job, "\n  \n"), Err(AsmError::SizeExceeded));
}
